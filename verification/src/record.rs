//! The rows of an index: one entry of a tree each.

use crate::text::{copy_opt, opt_text, same};
use crate::textmap::{lemma_sorted_set, lemma_sorted_set_unique, sorted_set, TextMap};
use vstd::prelude::*;

verus! {

/// An entry of a tree, as it was scanned.
#[derive(Debug)]
pub struct FileRecord {
    /// The path below the root of the tree.
    pub rel_path: String,
    /// `file`, or `symlink`.
    pub file_type: String,
    pub size: u64,
    pub mtime_ns: i64,
    /// The hash of a file's content, or the target of a link, where it is known.
    pub fast_hash: Option<String>,
}

impl FileRecord {
    pub fn copy(&self) -> (r: Self)
        ensures
            r == *self,
    {
        FileRecord {
            rel_path: self.rel_path.clone(),
            file_type: self.file_type.clone(),
            size: self.size,
            mtime_ns: self.mtime_ns,
            fast_hash: copy_opt(&self.fast_hash),
        }
    }
}

/// The paths of the rows.
pub open spec fn paths_of(rows: Seq<FileRecord>) -> Seq<Seq<char>> {
    rows.map_values(|row: FileRecord| row.rel_path@)
}

/// The paths of the rows in order, each once.
pub open spec fn sorted_paths(rows: Seq<FileRecord>) -> Seq<Seq<char>> {
    sorted_set(paths_of(rows))
}

/// The index of the last row of a path.
pub open spec fn last_index(rows: Seq<FileRecord>, path: Seq<char>) -> Option<int>
    decreases rows.len(),
{
    if rows.len() == 0 {
        None
    } else if rows.last().rel_path@ == path {
        Some(rows.len() - 1)
    } else {
        last_index(rows.drop_last(), path)
    }
}

/// Whether the rows hold a path.
pub open spec fn has_path(rows: Seq<FileRecord>, path: Seq<char>) -> bool {
    last_index(rows, path) is Some
}

/// The row of a path: the last one where there are several.
pub open spec fn row_of(rows: Seq<FileRecord>, path: Seq<char>) -> FileRecord {
    rows[last_index(rows, path)->0]
}

/// Whether two rows have the same size, time and hash.
pub open spec fn same_meta(a: FileRecord, b: FileRecord) -> bool {
    a.size == b.size && a.mtime_ns == b.mtime_ns && opt_text(a.fast_hash) == opt_text(b.fast_hash)
}

fn same_hashes(a: &Option<String>, b: &Option<String>) -> (r: bool)
    ensures
        r == (opt_text(*a) == opt_text(*b)),
{
    match (a, b) {
        (Some(a), Some(b)) => same(a.as_str(), b.as_str()),
        (None, None) => true,
        _ => false,
    }
}

impl FileRecord {
    /// Whether another row has the same size, time and hash.
    pub fn is_unchanged(&self, other: &FileRecord) -> (r: bool)
        ensures
            r == same_meta(*self, *other),
    {
        self.size == other.size && self.mtime_ns == other.mtime_ns && same_hashes(
            &self.fast_hash,
            &other.fast_hash,
        )
    }
}

pub proof fn lemma_last_index(rows: Seq<FileRecord>, path: Seq<char>)
    ensures
        match last_index(rows, path) {
            Some(i) => 0 <= i < rows.len() && rows[i].rel_path@ == path,
            None => forall|i: int| 0 <= i < rows.len() ==> (#[trigger] rows[i]).rel_path@ != path,
        },
        has_path(rows, path) <==> paths_of(rows).contains(path),
    decreases rows.len(),
{
    if rows.len() > 0 {
        lemma_last_index(rows.drop_last(), path);
        let init = rows.drop_last();
        assert forall|i: int| 0 <= i < init.len() implies init[i] == rows[i] by {}
        if has_path(rows, path) {
            let i = last_index(rows, path)->0;
            assert(rows[i].rel_path@ == path);
            assert(paths_of(rows)[i] == path);
        } else {
            assert forall|i: int| 0 <= i < rows.len() implies (#[trigger] rows[i]).rel_path@
                != path by {
                if i < rows.len() - 1 {
                    assert(init[i].rel_path@ != path);
                }
            }
            assert forall|i: int| 0 <= i < rows.len() implies paths_of(rows)[i] != path by {
                assert(rows[i].rel_path@ != path);
            }
        }
    } else {
        assert(paths_of(rows).len() == 0);
    }
}

/// Whether a map holds the index of the last row of each path.
pub open spec fn indexes(m: TextMap<usize>, rows: Seq<FileRecord>) -> bool {
    &&& m.wf()
    &&& m.key_seq() == sorted_paths(rows)
    &&& forall|p: Seq<char>| #[trigger] m@.contains_key(p) <==> has_path(rows, p)
    &&& forall|p: Seq<char>|
        #[trigger] m@.contains_key(p) ==> last_index(rows, p) == Some(m@[p] as int)
}

/// The rows by their paths.
pub fn index_rows(rows: &Vec<FileRecord>) -> (r: TextMap<usize>)
    ensures
        indexes(r, rows@),
{
    let mut r: TextMap<usize> = TextMap::new();
    let mut i: usize = 0;
    proof {
        assert(paths_of(rows@.take(0)) =~= Seq::empty());
    }
    while i < rows.len()
        invariant
            i <= rows@.len(),
            indexes(r, rows@.take(i as int)),
        decreases rows@.len() - i,
    {
        let ghost before = rows@.take(i as int);
        let ghost after = rows@.take(i as int + 1);
        let ghost old_map = r@;
        let ghost p0 = rows@[i as int].rel_path@;
        r.insert(rows[i].rel_path.clone(), i);
        proof {
            assert(after.drop_last() =~= before);
            assert(after.last() == rows@[i as int]);
            r.lemma_entries();
            assert forall|p: Seq<char>| r.key_seq().contains(p) <==> paths_of(after).contains(p) by {
                lemma_last_index(after, p);
                lemma_last_index(before, p);
                assert(r@.contains_key(p) <==> old_map.contains_key(p) || p == p0);
            }
            lemma_sorted_set_unique(r.key_seq(), paths_of(after));
            lemma_sorted_set(paths_of(after));
        }
        i = i + 1;
    }
    assert(rows@.take(i as int) =~= rows@);
    r
}

} // verus!
