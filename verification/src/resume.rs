//! Copies that are taken up again: their sessions, and the entries that are
//! still to be done.

use crate::copy_run::{status_name, ResumeMark, ResumeStatus};
use crate::filter::{
    lemma_filter_none, lemma_filter_split, lemma_filter_start, lemma_filter_step,
};
use crate::number::{decimal, decimal_chars, decimal_int, decimal_int_chars};
use crate::plan::{total_size, CopyPlan, CopyPlanItem, CopyPlanSummary};
use crate::progress::bool_text;
use crate::record::FileRecord;
use crate::text::{
    concat2, copy_opt, extend, extend_str, from_chars, opt_str, opt_text, same, texts, to_chars,
};
use vstd::prelude::*;

verus! {

/// A session.
#[derive(Debug)]
pub struct ResumeSessionListItem {
    pub session_id: String,
    pub mode: String,
    pub left_label: String,
    pub right_label: String,
    pub started_at: i64,
    pub finished_at: Option<i64>,
    pub planned_files: usize,
    pub copied_files: usize,
    pub failed_files: usize,
}

/// An entry of a session.
#[derive(Debug)]
pub struct ResumeItem {
    pub rel_path: String,
    pub status: String,
    pub attempts: i64,
    pub bytes_done: i64,
    pub last_error: Option<String>,
    pub updated_at: i64,
}

/// How many entries of a session are in which state.
#[derive(Debug)]
pub struct ResumeSessionStats {
    pub session_id: String,
    pub pending: usize,
    pub copying: usize,
    pub failed: usize,
    pub done: usize,
    pub skipped_existing: usize,
    pub skipped_conflict: usize,
    pub planned: usize,
}

/// How many entries were forgotten.
#[derive(Debug)]
pub struct ResumePruneResult {
    pub scope: String,
    pub deleted_rows: usize,
    pub dry_run: bool,
}

/// An entry as it is exported.
#[derive(Debug)]
pub struct ResumeItemExportRow {
    pub session_id: String,
    pub rel_path: String,
    pub status: String,
    pub attempts: usize,
    pub bytes_done: u64,
    pub last_error: Option<String>,
    pub updated_at: i64,
}

// ---------------------------------------------------------------------------
// Sessions
// ---------------------------------------------------------------------------

/// The indexes that keep track of a copy: those of both trees, or the one where
/// they are the same.
pub open spec fn tracking(left: Option<Seq<char>>, right: Option<Seq<char>>) -> Seq<Seq<char>> {
    (match left {
        Some(l) => seq![l],
        None => Seq::<Seq<char>>::empty(),
    }) + (match right {
        Some(r) => if left == Some(r) {
            Seq::<Seq<char>>::empty()
        } else {
            seq![r]
        },
        None => Seq::<Seq<char>>::empty(),
    })
}

/// The indexes that keep track of a copy.
pub fn tracking_dbs(plan: &CopyPlan) -> (r: Vec<String>)
    ensures
        texts(r@) == tracking(opt_text(plan.left_db), opt_text(plan.right_db)),
{
    let mut r: Vec<String> = Vec::new();
    if let Some(left) = &plan.left_db {
        r.push(left.clone());
    }
    if let Some(right) = &plan.right_db {
        let known = match &plan.left_db {
            Some(left) => same(left.as_str(), right.as_str()),
            None => false,
        };
        if !known {
            r.push(right.clone());
        }
    }
    assert(texts(r@) =~= tracking(opt_text(plan.left_db), opt_text(plan.right_db)));
    r
}

/// The name of a session.
pub fn session_name(pid: u32, started_at: i64) -> (r: String)
    ensures
        r@ == decimal(pid as nat) + "-"@ + decimal_int(started_at as int),
{
    let mut out = decimal_chars(pid as u128);
    extend_str(&mut out, "-");
    extend(&mut out, &decimal_int_chars(started_at as i128));
    from_chars(&out)
}

/// Whether a session of the list is the one that is asked for; the first one
/// where none is.
pub open spec fn is_wanted(
    sessions: Seq<ResumeSessionListItem>,
    wanted: Option<Seq<char>>,
    i: int,
) -> bool {
    match wanted {
        Some(id) => sessions[i].session_id@ == id,
        None => i == 0,
    }
}

/// Finds a session in a list that starts with the latest one: the one of the
/// name, or the latest.
pub fn find_session(sessions: &Vec<ResumeSessionListItem>, wanted: Option<&str>) -> (r: Option<usize>)
    ensures
        match r {
            Some(i) => i < sessions@.len() && is_wanted(sessions@, opt_str(wanted), i as int)
                && forall|k: int|
                0 <= k < i ==> !#[trigger] is_wanted(sessions@, opt_str(wanted), k),
            None => forall|k: int|
                0 <= k < sessions@.len() ==> !#[trigger] is_wanted(sessions@, opt_str(wanted), k),
        },
{
    let mut i: usize = 0;
    while i < sessions.len()
        invariant
            i <= sessions@.len(),
            forall|k: int| 0 <= k < i ==> !#[trigger] is_wanted(sessions@, opt_str(wanted), k),
        decreases sessions@.len() - i,
    {
        let found = match wanted {
            Some(id) => same(sessions[i].session_id.as_str(), id),
            None => i == 0,
        };
        if found {
            return Some(i);
        }
        i = i + 1;
    }
    None
}

// ---------------------------------------------------------------------------
// Entries
// ---------------------------------------------------------------------------

/// Whether this is what an entry is after a mark. A new entry has been tried
/// once or not at all; an old one is tried once more, or as often as before.
pub open spec fn is_marked(
    r: ResumeItem,
    before: Option<&ResumeItem>,
    rel_path: Seq<char>,
    mark: &ResumeMark,
    attempt: bool,
    now_ns: i64,
) -> bool {
    let tried = match before {
        Some(item) => item.attempts as int,
        None => 0,
    };
    &&& r.rel_path@ == rel_path
    &&& r.status@ == status_name(mark.status)
    &&& r.attempts == tried + (if attempt {
        1int
    } else {
        0
    })
    &&& r.bytes_done == mark.bytes_done as i64
    &&& opt_text(r.last_error) == opt_text(mark.error)
    &&& r.updated_at == now_ns
}

/// What an entry is after a mark.
pub fn apply_mark(
    before: Option<&ResumeItem>,
    rel_path: &str,
    mark: &ResumeMark,
    attempt: bool,
    now_ns: i64,
) -> (r: ResumeItem)
    requires
        attempt ==> (before matches Some(item) ==> item.attempts < i64::MAX),
        mark.bytes_done <= i64::MAX,
    ensures
        is_marked(r, before, rel_path@, mark, attempt, now_ns),
{
    let tried: i64 = match before {
        Some(item) => item.attempts,
        None => 0,
    };
    ResumeItem {
        rel_path: from_chars(&to_chars(rel_path)),
        status: from_chars(&to_chars(mark.status.name())),
        attempts: if attempt { tried + 1 } else { tried },
        bytes_done: mark.bytes_done as i64,
        last_error: copy_opt(&mark.error),
        updated_at: now_ns,
    }
}

/// Whether an entry is tried again: it is not settled, or it failed and only
/// such entries count; and it has not been tried too often.
pub open spec fn is_pending(item: ResumeItem, only_failed: bool, max_attempts: Option<u64>) -> bool {
    let status = item.status@;
    &&& status == "failed"@ || (!only_failed && (status == "pending"@ || status == "copying"@))
    &&& max_attempts matches Some(most) ==> item.attempts <= most
}

/// Whether an entry is exported: it is in a state that is known, or it failed
/// and only such entries count; and it has not been tried too often.
pub open spec fn is_exported(item: ResumeItem, only_failed: bool, max_attempts: Option<u64>) -> bool {
    let status = item.status@;
    &&& status == "failed"@ || (!only_failed && (status == "pending"@ || status == "copying"@
        || status == "done"@ || status == "skipped_existing"@ || status == "skipped_conflict"@
        || status == "planned"@))
    &&& max_attempts matches Some(most) ==> item.attempts <= most
}

/// Whether an entry is settled for good.
pub open spec fn is_completed(item: ResumeItem) -> bool {
    let status = item.status@;
    status == "done"@ || status == "skipped_existing"@ || status == "skipped_conflict"@
}

fn within_attempts(item: &ResumeItem, max_attempts: Option<u64>) -> (r: bool)
    ensures
        r == (max_attempts matches Some(most) ==> item.attempts <= most),
{
    match max_attempts {
        Some(most) => item.attempts as i128 <= most as i128,
        None => true,
    }
}

fn pending_test(item: &ResumeItem, only_failed: bool, max_attempts: Option<u64>) -> (r: bool)
    ensures
        r == is_pending(*item, only_failed, max_attempts),
{
    let status = item.status.as_str();
    (same(status, "failed") || (!only_failed && (same(status, "pending") || same(
        status,
        "copying",
    )))) && within_attempts(item, max_attempts)
}

fn export_test(item: &ResumeItem, only_failed: bool, max_attempts: Option<u64>) -> (r: bool)
    ensures
        r == is_exported(*item, only_failed, max_attempts),
{
    let status = item.status.as_str();
    (same(status, "failed") || (!only_failed && (same(status, "pending") || same(status, "copying")
        || same(status, "done") || same(status, "skipped_existing") || same(
        status,
        "skipped_conflict",
    ) || same(status, "planned")))) && within_attempts(item, max_attempts)
}

/// Whether an entry is settled for good.
pub fn completed_test(item: &ResumeItem) -> (r: bool)
    ensures
        r == is_completed(*item),
{
    let status = item.status.as_str();
    same(status, "done") || same(status, "skipped_existing") || same(status, "skipped_conflict")
}

/// The entries that are tried again.
pub open spec fn pending(items: Seq<ResumeItem>, only_failed: bool, max_attempts: Option<u64>) -> Seq<
    ResumeItem,
> {
    items.filter(|item: ResumeItem| is_pending(item, only_failed, max_attempts))
}

pub open spec fn item_paths(items: Seq<ResumeItem>) -> Seq<Seq<char>> {
    items.map_values(|item: ResumeItem| item.rel_path@)
}

/// The paths of the entries that are tried again.
pub fn load_resume_pending_items(
    items: &Vec<ResumeItem>,
    only_failed: bool,
    max_attempts: Option<u64>,
) -> (r: Vec<String>)
    ensures
        texts(r@) == item_paths(pending(items@, only_failed, max_attempts)),
{
    let ghost keep = |item: ResumeItem| is_pending(item, only_failed, max_attempts);
    let ghost all = items@;
    let mut r: Vec<String> = Vec::new();
    let mut i: usize = 0;
    proof {
        lemma_filter_start(all, keep);
        assert(texts(r@) =~= item_paths(all.take(0).filter(keep)));
    }
    while i < items.len()
        invariant
            i <= items@.len(),
            all == items@,
            keep == (|item: ResumeItem| is_pending(item, only_failed, max_attempts)),
            texts(r@) == item_paths(all.take(i as int).filter(keep)),
        decreases items@.len() - i,
    {
        let ghost before = all.take(i as int).filter(keep);
        let ghost old_r = texts(r@);
        proof {
            lemma_filter_step(all, keep, i as int);
        }
        if pending_test(&items[i], only_failed, max_attempts) {
            r.push(items[i].rel_path.clone());
            proof {
                assert(texts(r@) =~= old_r.push(items@[i as int].rel_path@));
                assert(item_paths(before.push(items@[i as int])) =~= item_paths(before).push(
                    items@[i as int].rel_path@,
                ));
            }
        }
        i = i + 1;
    }
    assert(all.take(i as int) =~= all);
    r
}

/// A count that may be stored as less than nothing.
pub open spec fn at_least_zero(n: i64) -> nat {
    if n < 0 {
        0
    } else {
        n as nat
    }
}

/// A count that may be stored as less than nothing.
pub fn count_of(n: i64) -> (r: usize)
    requires
        n <= usize::MAX,
    ensures
        r == at_least_zero(n),
{
    if n < 0 {
        0
    } else {
        n as usize
    }
}

/// Whether this is an entry as it is exported.
pub open spec fn is_export_of(row: ResumeItemExportRow, item: ResumeItem, session_id: Seq<char>) -> bool {
    &&& row.session_id@ == session_id
    &&& row.rel_path@ == item.rel_path@
    &&& row.status@ == item.status@
    &&& row.attempts == at_least_zero(item.attempts)
    &&& row.bytes_done == at_least_zero(item.bytes_done)
    &&& opt_text(row.last_error) == opt_text(item.last_error)
    &&& row.updated_at == item.updated_at
}

/// The entries that are exported.
pub open spec fn exported(items: Seq<ResumeItem>, only_failed: bool, max_attempts: Option<u64>) -> Seq<
    ResumeItem,
> {
    items.filter(|item: ResumeItem| is_exported(item, only_failed, max_attempts))
}

/// The entries of a session as they are exported.
pub fn load_resume_items_for_export(
    items: &Vec<ResumeItem>,
    session_id: &str,
    only_failed: bool,
    max_attempts: Option<u64>,
) -> (r: Vec<ResumeItemExportRow>)
    requires
        forall|i: int| 0 <= i < items@.len() ==> (#[trigger] items@[i]).attempts <= usize::MAX,
    ensures
        r@.len() == exported(items@, only_failed, max_attempts).len(),
        forall|i: int|
            0 <= i < r@.len() ==> is_export_of(
                #[trigger] r@[i],
                exported(items@, only_failed, max_attempts)[i],
                session_id@,
            ),
{
    let ghost keep = |item: ResumeItem| is_exported(item, only_failed, max_attempts);
    let ghost all = items@;
    let mut r: Vec<ResumeItemExportRow> = Vec::new();
    let mut i: usize = 0;
    proof {
        lemma_filter_start(all, keep);
    }
    while i < items.len()
        invariant
            i <= items@.len(),
            all == items@,
            forall|k: int| 0 <= k < items@.len() ==> (#[trigger] items@[k]).attempts <= usize::MAX,
            keep == (|item: ResumeItem| is_exported(item, only_failed, max_attempts)),
            r@.len() == all.take(i as int).filter(keep).len(),
            forall|k: int|
                0 <= k < r@.len() ==> is_export_of(
                    #[trigger] r@[k],
                    all.take(i as int).filter(keep)[k],
                    session_id@,
                ),
        decreases items@.len() - i,
    {
        proof {
            lemma_filter_step(all, keep, i as int);
        }
        let item = &items[i];
        if export_test(item, only_failed, max_attempts) {
            r.push(
                ResumeItemExportRow {
                    session_id: from_chars(&to_chars(session_id)),
                    rel_path: item.rel_path.clone(),
                    status: item.status.clone(),
                    attempts: count_of(item.attempts),
                    bytes_done: if item.bytes_done < 0 { 0 } else { item.bytes_done as u64 },
                    last_error: copy_opt(&item.last_error),
                    updated_at: item.updated_at,
                },
            );
            assert(all.take(i as int + 1).filter(keep) =~= all.take(i as int).filter(keep).push(
                *item,
            ));
        }
        i = i + 1;
    }
    assert(all.take(i as int) =~= all);
    r
}

/// How many entries are in a state.
pub open spec fn in_state(items: Seq<ResumeItem>, status: Seq<char>) -> nat {
    items.filter(|item: ResumeItem| item.status@ == status).len()
}

fn count_state(items: &Vec<ResumeItem>, status: &str) -> (r: usize)
    ensures
        r == in_state(items@, status@),
{
    let ghost keep = |item: ResumeItem| item.status@ == status@;
    let mut r: usize = 0;
    let mut i: usize = 0;
    proof {
        lemma_filter_start(items@, keep);
    }
    while i < items.len()
        invariant
            i <= items@.len(),
            r <= i,
            keep == (|item: ResumeItem| item.status@ == status@),
            r == items@.take(i as int).filter(keep).len(),
        decreases items@.len() - i,
    {
        proof {
            lemma_filter_step(items@, keep, i as int);
        }
        if same(items[i].status.as_str(), status) {
            r = r + 1;
        }
        i = i + 1;
    }
    assert(items@.take(i as int) =~= items@);
    r
}

/// How many entries of a session are in which state.
pub fn load_resume_session_stats(items: &Vec<ResumeItem>, session_id: &str) -> (r:
    ResumeSessionStats)
    ensures
        r.session_id@ == session_id@,
        r.pending == in_state(items@, "pending"@),
        r.copying == in_state(items@, "copying"@),
        r.failed == in_state(items@, "failed"@),
        r.done == in_state(items@, "done"@),
        r.skipped_existing == in_state(items@, "skipped_existing"@),
        r.skipped_conflict == in_state(items@, "skipped_conflict"@),
        r.planned == in_state(items@, "planned"@),
{
    ResumeSessionStats {
        session_id: from_chars(&to_chars(session_id)),
        pending: count_state(items, "pending"),
        copying: count_state(items, "copying"),
        failed: count_state(items, "failed"),
        done: count_state(items, "done"),
        skipped_existing: count_state(items, "skipped_existing"),
        skipped_conflict: count_state(items, "skipped_conflict"),
        planned: count_state(items, "planned"),
    }
}

/// An entry of a session.
#[derive(Debug)]
pub struct ResumeRow {
    pub session_id: String,
    pub item: ResumeItem,
}

/// Whether a row is forgotten: its entry is settled for good, and it is of the
/// session that is asked for, where one is.
pub open spec fn is_pruned(row: ResumeRow, session: Option<Seq<char>>) -> bool {
    is_completed(row.item) && (session matches Some(id) ==> row.session_id@ == id)
}

/// The rows that are forgotten.
pub open spec fn pruned(rows: Seq<ResumeRow>, session: Option<Seq<char>>) -> Seq<ResumeRow> {
    rows.filter(|row: ResumeRow| is_pruned(row, session))
}

/// The rows that are left; in a dry run all of them are.
pub open spec fn left_behind(
    rows: Seq<ResumeRow>,
    session: Option<Seq<char>>,
    dry_run: bool,
) -> Seq<ResumeRow> {
    if dry_run {
        rows
    } else {
        rows.filter(|row: ResumeRow| !is_pruned(row, session))
    }
}

fn pruned_test(row: &ResumeRow, session_id: Option<&str>) -> (r: bool)
    ensures
        r == is_pruned(*row, opt_str(session_id)),
{
    completed_test(&row.item) && match session_id {
        Some(id) => same(row.session_id.as_str(), id),
        None => true,
    }
}

/// What is forgotten: the entries of a session, or of all sessions, that are
/// settled for good. It comes with the places of the rows to remove, in order;
/// in a dry run there are none.
pub fn prune_resume_completed_rows(
    rows: &Vec<ResumeRow>,
    session_id: Option<&str>,
    dry_run: bool,
) -> (r: (ResumePruneResult, Vec<usize>))
    ensures
        r.0.scope@ == match session_id {
            Some(id) => "session:"@ + id@,
            None => "all"@,
        },
        r.0.deleted_rows == pruned(rows@, opt_str(session_id)).len(),
        r.0.dry_run == dry_run,
        r.1@.len() == (if dry_run {
            0
        } else {
            r.0.deleted_rows
        }),
        forall|i: int, j: int| 0 <= i < j < r.1@.len() ==> r.1@[i] < r.1@[j],
        forall|k: usize| #[trigger]
            r.1@.contains(k) <==> !dry_run && k < rows@.len() && is_pruned(
                rows@[k as int],
                opt_str(session_id),
            ),
{
    let ghost keep = |row: ResumeRow| is_pruned(row, opt_str(session_id));
    let mut places: Vec<usize> = Vec::new();
    let mut n: usize = 0;
    let mut i: usize = 0;
    proof {
        lemma_filter_start(rows@, keep);
    }
    while i < rows.len()
        invariant
            i <= rows@.len(),
            n <= i,
            keep == (|row: ResumeRow| is_pruned(row, opt_str(session_id))),
            n == rows@.take(i as int).filter(keep).len(),
            places@.len() == (if dry_run {
                0
            } else {
                n
            }),
            forall|k: int| 0 <= k < places@.len() ==> #[trigger] places@[k] < i,
            forall|k: int, j: int| 0 <= k < j < places@.len() ==> places@[k] < places@[j],
            forall|k: usize| #[trigger]
                places@.contains(k) <==> !dry_run && k < i && is_pruned(
                    rows@[k as int],
                    opt_str(session_id),
                ),
        decreases rows@.len() - i,
    {
        proof {
            lemma_filter_step(rows@, keep, i as int);
        }
        if pruned_test(&rows[i], session_id) {
            n = n + 1;
            if !dry_run {
                let ghost before = places@;
                places.push(i);
                proof {
                    assert forall|k: usize| #[trigger] places@.contains(k) <==> before.contains(k)
                        || k == i by {
                        if before.contains(k) {
                            assert(places@[before.index_of(k)] == k);
                        }
                        assert(places@[before.len() as int] == i);
                        if places@.contains(k) && k != i {
                            assert(before[places@.index_of(k)] == k);
                        }
                    }
                }
            }
        }
        i = i + 1;
    }
    assert(rows@.take(i as int) =~= rows@);
    let scope = match session_id {
        Some(id) => concat2("session:", id),
        None => from_chars(&to_chars("all")),
    };
    (ResumePruneResult { scope, deleted_rows: n, dry_run }, places)
}

// ---------------------------------------------------------------------------
// The plan
// ---------------------------------------------------------------------------

/// Whether this is the entry of a path: as the index has it, or a file of which
/// nothing is known.
pub open spec fn is_item_of(item: CopyPlanItem, path: Seq<char>, row: Option<FileRecord>) -> bool {
    &&& item.rel_path@ == path
    &&& match row {
        Some(row) => item.file_type@ == row.file_type@ && item.size == row.size && item.mtime_ns
            == row.mtime_ns && opt_text(item.fast_hash) == opt_text(row.fast_hash),
        None => item.file_type@ == "file"@ && item.size == 0 && item.mtime_ns == 0
            && item.fast_hash is None,
    }
}

/// The sum of the sizes, at most what 64 bits hold.
pub open spec fn capped(n: nat) -> nat {
    if n <= u64::MAX {
        n
    } else {
        u64::MAX as nat
    }
}

/// Plans the copy of what a session left undone. `rows` holds what the index
/// has for each of the paths.
pub fn build_resume_copy_plan(
    session: &ResumeSessionListItem,
    db: &str,
    pending: &Vec<String>,
    rows: &Vec<Option<FileRecord>>,
    generated_at_ns: i64,
) -> (r: CopyPlan)
    requires
        rows@.len() == pending@.len(),
    ensures
        r.mode@ == session.mode@,
        r.left_label@ == session.left_label@,
        r.right_label@ == session.right_label@,
        opt_text(r.left_db) == Some(db@),
        r.right_db is None,
        r.generated_at_ns == generated_at_ns,
        r.items@.len() == pending@.len(),
        forall|i: int|
            0 <= i < r.items@.len() ==> is_item_of(#[trigger] r.items@[i], pending@[i]@, rows@[i]),
        r.summary == (CopyPlanSummary {
            files_to_copy: r.items@.len() as usize,
            bytes_to_copy: capped(total_size(r.items@)) as u64,
            left_files: r.items@.len() as usize,
            right_files: 0,
        }),
{
    let mut items: Vec<CopyPlanItem> = Vec::new();
    let mut bytes: u64 = 0;
    let mut i: usize = 0;
    assert(items@ =~= Seq::empty());
    while i < pending.len()
        invariant
            i <= pending@.len(),
            rows@.len() == pending@.len(),
            items@.len() == i,
            forall|k: int|
                0 <= k < i ==> is_item_of(#[trigger] items@[k], pending@[k]@, rows@[k]),
            bytes == capped(total_size(items@)),
        decreases pending@.len() - i,
    {
        let item = match &rows[i] {
            Some(row) => CopyPlanItem {
                rel_path: pending[i].clone(),
                file_type: row.file_type.clone(),
                size: row.size,
                mtime_ns: row.mtime_ns,
                fast_hash: copy_opt(&row.fast_hash),
            },
            None => CopyPlanItem {
                rel_path: pending[i].clone(),
                file_type: from_chars(&to_chars("file")),
                size: 0,
                mtime_ns: 0,
                fast_hash: None,
            },
        };
        bytes = if item.size > u64::MAX - bytes { u64::MAX } else { bytes + item.size };
        let ghost before = items@;
        items.push(item);
        assert(items@.drop_last() =~= before);
        i = i + 1;
    }
    let n: usize = items.len();
    CopyPlan {
        mode: session.mode.clone(),
        left_label: session.left_label.clone(),
        right_label: session.right_label.clone(),
        left_db: Some(from_chars(&to_chars(db))),
        right_db: None,
        generated_at_ns,
        summary: CopyPlanSummary {
            files_to_copy: n,
            bytes_to_copy: bytes,
            left_files: n,
            right_files: 0,
        },
        items,
    }
}

// ---------------------------------------------------------------------------
// What is asked for
// ---------------------------------------------------------------------------

/// What is asked for.
#[derive(Clone, Copy, Debug, PartialEq, Eq, Structural)]
pub struct ResumeAsked {
    pub export: bool,
    pub prune_completed: bool,
    pub dry_run_prune: bool,
    pub vacuum: bool,
    pub list_sessions: bool,
    pub stats: bool,
    pub write_plan: bool,
    pub execute: bool,
}

/// What is done: the first of these that is asked for.
#[derive(Clone, Copy, Debug, PartialEq, Eq, Structural)]
pub enum ResumeAction {
    Export,
    Prune { vacuum: bool },
    List,
    Stats,
    /// A plan is made, which is written, or executed, or both.
    Plan { write: bool, execute: bool },
    /// A plan that is neither written nor executed is of no use.
    Refuse,
}

pub open spec fn resume_action(asked: ResumeAsked) -> ResumeAction {
    if asked.export {
        ResumeAction::Export
    } else if asked.prune_completed {
        ResumeAction::Prune { vacuum: asked.vacuum && !asked.dry_run_prune }
    } else if asked.list_sessions {
        ResumeAction::List
    } else if asked.stats {
        ResumeAction::Stats
    } else if asked.write_plan || asked.execute {
        ResumeAction::Plan { write: asked.write_plan, execute: asked.execute }
    } else {
        ResumeAction::Refuse
    }
}

/// What is done.
pub fn choose_resume_action(asked: &ResumeAsked) -> (r: ResumeAction)
    ensures
        r == resume_action(*asked),
{
    if asked.export {
        ResumeAction::Export
    } else if asked.prune_completed {
        ResumeAction::Prune { vacuum: asked.vacuum && !asked.dry_run_prune }
    } else if asked.list_sessions {
        ResumeAction::List
    } else if asked.stats {
        ResumeAction::Stats
    } else if asked.write_plan || asked.execute {
        ResumeAction::Plan { write: asked.write_plan, execute: asked.execute }
    } else {
        ResumeAction::Refuse
    }
}

/// What is told before a session is taken up again.
pub open spec fn preflight_line(
    session: Option<Seq<char>>,
    plan: &CopyPlan,
    only_failed: bool,
    max_attempts: Option<u64>,
    dry_run: bool,
    overwrite: bool,
) -> Seq<char> {
    "[resume preflight] session="@ + (match session {
        Some(id) => id,
        None => "latest"@,
    }) + " files="@ + decimal(plan.items@.len()) + " bytes="@ + decimal(
        plan.summary.bytes_to_copy as nat,
    ) + " filter="@ + (if only_failed {
        "failed-only"@
    } else {
        "pending+copying+failed"@
    }) + " max_attempts="@ + (match max_attempts {
        Some(n) => decimal(n as nat),
        None => "none"@,
    }) + " dry_run="@ + bool_text(dry_run) + " overwrite="@ + bool_text(overwrite)
}

/// What is told before a session is taken up again.
pub fn tell_preflight(
    session: Option<&str>,
    plan: &CopyPlan,
    only_failed: bool,
    max_attempts: Option<u64>,
    dry_run: bool,
    overwrite: bool,
) -> (r: String)
    ensures
        r@ == preflight_line(opt_str(session), plan, only_failed, max_attempts, dry_run, overwrite),
{
    let mut out = to_chars("[resume preflight] session=");
    match session {
        Some(id) => extend_str(&mut out, id),
        None => extend_str(&mut out, "latest"),
    }
    extend_str(&mut out, " files=");
    extend(&mut out, &decimal_chars(plan.items.len() as u128));
    extend_str(&mut out, " bytes=");
    extend(&mut out, &decimal_chars(plan.summary.bytes_to_copy as u128));
    extend_str(&mut out, " filter=");
    extend_str(&mut out, if only_failed { "failed-only" } else { "pending+copying+failed" });
    extend_str(&mut out, " max_attempts=");
    match max_attempts {
        Some(n) => extend(&mut out, &decimal_chars(n as u128)),
        None => extend_str(&mut out, "none"),
    }
    extend_str(&mut out, " dry_run=");
    extend_str(&mut out, if dry_run { "true" } else { "false" });
    extend_str(&mut out, " overwrite=");
    extend_str(&mut out, if overwrite { "true" } else { "false" });
    from_chars(&out)
}

// ---------------------------------------------------------------------------
// Laws
// ---------------------------------------------------------------------------

/// What is forgotten is never what is still to be done.
pub proof fn law_completed_is_not_pending(
    item: ResumeItem,
    only_failed: bool,
    max_attempts: Option<u64>,
)
    requires
        is_completed(item),
    ensures
        !is_pending(item, only_failed, max_attempts),
{
    reveal_strlit("done");
    reveal_strlit("skipped_existing");
    reveal_strlit("skipped_conflict");
    reveal_strlit("failed");
    reveal_strlit("pending");
    reveal_strlit("copying");
    assert("done"@.len() == 4);
    assert("failed"@.len() == 6);
    assert("pending"@.len() == 7);
    assert("copying"@.len() == 7);
    assert("skipped_existing"@.len() == 16);
    assert("skipped_conflict"@.len() == 16);
}

/// What is still to be done is exported, and failed entries are still to be
/// done.
pub proof fn law_pending_is_exported(
    item: ResumeItem,
    only_failed: bool,
    max_attempts: Option<u64>,
)
    ensures
        is_pending(item, only_failed, max_attempts) ==> is_exported(
            item,
            only_failed,
            max_attempts,
        ),
        is_pending(item, true, max_attempts) ==> is_pending(item, false, max_attempts),
{
}

/// Once an entry is marked as done it is no longer to be done, and once it is
/// marked as failed it is.
pub proof fn law_marks_decide(
    r: ResumeItem,
    before: Option<&ResumeItem>,
    rel_path: Seq<char>,
    mark: &ResumeMark,
    attempt: bool,
    now_ns: i64,
)
    requires
        is_marked(r, before, rel_path, mark, attempt, now_ns),
    ensures
        mark.status == ResumeStatus::Done ==> !is_pending(r, false, None),
        mark.status == ResumeStatus::Failed ==> is_pending(r, true, None),
        mark.status == ResumeStatus::Copying ==> is_pending(r, false, None),
{
    if mark.status == ResumeStatus::Done {
        law_completed_is_not_pending(r, false, None);
    }
}

/// A dry run leaves every row, and tells how many a run removes. A run removes
/// exactly the rows that are settled, of the session where one is asked for; it
/// leaves none of them for a further one.
pub proof fn law_pruning_is_complete(rows: Seq<ResumeRow>, session: Option<Seq<char>>)
    ensures
        left_behind(rows, session, true) == rows,
        left_behind(rows, session, false).len() + pruned(rows, session).len() == rows.len(),
        forall|row: ResumeRow|
            left_behind(rows, session, false).contains(row) <==> #[trigger] rows.contains(row)
                && !is_pruned(row, session),
        pruned(left_behind(rows, session, false), session).len() == 0,
{
    let gone = |row: ResumeRow| is_pruned(row, session);
    let stays = |row: ResumeRow| !is_pruned(row, session);
    let rest = rows.filter(stays);
    lemma_filter_split(rows, gone, stays);
    assert forall|row: ResumeRow|
        rest.contains(row) <==> #[trigger] rows.contains(row) && !is_pruned(row, session) by {
        if rest.contains(row) {
            rows.lemma_filter_pred(stays, rest.index_of(row));
            rows.lemma_filter_contains_rev(stays, row);
        }
        if rows.contains(row) && !is_pruned(row, session) {
            rows.lemma_filter_contains(stays, rows.index_of(row));
        }
    }
    assert forall|i: int| 0 <= i < rest.len() implies !gone(#[trigger] rest[i]) by {
        rows.lemma_filter_pred(stays, i);
    }
    lemma_filter_none(rest, gone);
}

} // verus!
