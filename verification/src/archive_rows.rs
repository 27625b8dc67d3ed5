//! The archives that an index holds, and how a scan renews them.

use crate::archive::{is_archive_path, names_archive};
use crate::record::{has_path, last_index, row_of, FileRecord};
use vstd::prelude::*;

verus! {

/// What to do with the archive that an index holds at the path of a row.
#[derive(Clone, Copy, Debug, PartialEq, Eq, Structural)]
pub enum ArchiveRowStep {
    /// The row is an archive, and is stored.
    Store,
    /// The row is none, and what was stored is forgotten.
    Forget,
}

/// What to do with the archive that an index holds at the path of a row.
pub open spec fn row_step(row: FileRecord) -> ArchiveRowStep {
    if names_archive(row.rel_path@) {
        ArchiveRowStep::Store
    } else {
        ArchiveRowStep::Forget
    }
}

/// What to do with the archive that an index holds at the path of a row.
pub fn archive_row_step(row: &FileRecord) -> (r: ArchiveRowStep)
    ensures
        r == row_step(*row),
{
    if is_archive_path(row.rel_path.as_str()) {
        ArchiveRowStep::Store
    } else {
        ArchiveRowStep::Forget
    }
}

/// Whether an archive that was stored at a time is forgotten at the end of a
/// scan: it is of an earlier one.
pub open spec fn is_stale(stored_at: i64, scanned_at: i64) -> bool {
    stored_at < scanned_at
}

/// Whether an archive that was stored at a time is forgotten at the end of a
/// scan.
pub fn archive_row_is_stale(stored_at: i64, scanned_at: i64) -> (r: bool)
    ensures
        r == is_stale(stored_at, scanned_at),
{
    stored_at < scanned_at
}

/// The archives of an index: by their paths the rows that they were stored for,
/// and when.
pub type ArchiveTable = Map<Seq<char>, (FileRecord, i64)>;

/// The archives behind a row of a scan.
pub open spec fn with_row(table: ArchiveTable, row: FileRecord, at: i64) -> ArchiveTable {
    match row_step(row) {
        ArchiveRowStep::Store => table.insert(row.rel_path@, (row, at)),
        ArchiveRowStep::Forget => table.remove(row.rel_path@),
    }
}

/// The archives behind the rows of a scan.
pub open spec fn with_rows(table: ArchiveTable, rows: Seq<FileRecord>, at: i64) -> ArchiveTable
    decreases rows.len(),
{
    if rows.len() == 0 {
        table
    } else {
        with_row(with_rows(table, rows.drop_last(), at), rows.last(), at)
    }
}

/// The archives at the end of a scan.
pub open spec fn refreshed(table: ArchiveTable, rows: Seq<FileRecord>, at: i64) -> ArchiveTable {
    let all = with_rows(table, rows, at);
    all.restrict(Set::new(|p: Seq<char>| !is_stale(all[p].1, at)))
}

proof fn lemma_with_rows(
    table: ArchiveTable,
    rows: Seq<FileRecord>,
    at: i64,
    path: Seq<char>,
)
    ensures
        ({
            let all = with_rows(table, rows, at);
            if has_path(rows, path) {
                &&& all.contains_key(path) == names_archive(path)
                &&& names_archive(path) ==> all[path] == (row_of(rows, path), at)
            } else {
                &&& all.contains_key(path) == table.contains_key(path)
                &&& table.contains_key(path) ==> all[path] == table[path]
            }
        }),
        has_path(rows, path) ==> 0 <= last_index(rows, path)->0 < rows.len(),
    decreases rows.len(),
{
    if rows.len() > 0 {
        lemma_with_rows(table, rows.drop_last(), at, path);
    }
}

/// After a scan the archives of an index are exactly those that the scan found,
/// as it found them, where all that were there before are of earlier scans.
pub proof fn law_archives_are_those_found(
    table: ArchiveTable,
    rows: Seq<FileRecord>,
    at: i64,
    path: Seq<char>,
)
    requires
        forall|p: Seq<char>| #[trigger] table.contains_key(p) ==> table[p].1 < at,
    ensures
        refreshed(table, rows, at).contains_key(path) <==> has_path(rows, path) && names_archive(
            path,
        ),
        refreshed(table, rows, at).contains_key(path) ==> refreshed(table, rows, at)[path] == (
            row_of(rows, path),
            at,
        ),
{
    lemma_with_rows(table, rows, at, path);
}

} // verus!
