//! Which archives of one tree have their like in another.

use crate::archive::{
    archive_family_depth, archive_family_of, archive_stem, build_archive_stem,
    build_virtual_archive_member_path, build_virtual_archive_path, family_words,
    infer_archive_family, is_archive_path, names_archive, virtual_member_of, virtual_path_of,
};
use crate::csv::{csv_field, csv_row, push_cell, push_field, push_row};
use crate::dossier::{folder_of, folder_path_from_row};
use crate::filter::{lemma_filter_start, lemma_filter_step};
use crate::fingerprint::{infer_archive_payload_signature, payload_signature_of};
use crate::keyed::{
    as_ints, in_both, index_last, items_at, lemma_parts_of_keys, lemma_places, lemma_places_take,
    only_in, places, places_only_in,
};
use crate::number::{decimal, decimal_chars};
use crate::order::{
    in_order, lemma_pair_asymmetric, lemma_pair_negatively_transitive, pair_before, pair_lt, sort,
    Ranked,
};
use crate::record::FileRecord;
use crate::text::{
    char_texts, concat3, copy_opt, extend, extend_str, from_chars, lemma_text_lt_irreflexive,
    opt_text, texts, to_chars,
};
use crate::textmap::{sort_distinct, sorted_set, TextMap};
use vstd::prelude::*;
use vstd::set_lib::{lemma_map_size, set_int_range};

verus! {

/// An archive of a tree.
#[derive(Debug)]
pub struct ExtractCheckEntry {
    pub path: String,
    pub folder: String,
    pub stem: String,
    pub virtual_path: String,
    pub virtual_member: String,
    pub archive_family: Option<String>,
    pub payload_signature: Option<String>,
    pub archive_depth: usize,
    pub size: u64,
    pub mtime_ns: i64,
    pub fast_hash: Option<String>,
}

/// Two archives of the same stem.
#[derive(Debug)]
pub struct ExtractCheckMatch {
    pub left_path: String,
    pub right_path: String,
    pub left_folder: String,
    pub right_folder: String,
    pub stem: String,
    pub virtual_path: String,
    pub archive_family: Option<String>,
    pub payload_signature: Option<String>,
    pub archive_depth: usize,
    pub left_size: u64,
    pub right_size: u64,
    pub left_mtime_ns: i64,
    pub right_mtime_ns: i64,
    pub left_fast_hash: Option<String>,
    pub right_fast_hash: Option<String>,
}

#[derive(Debug)]
pub struct ExtractCheckReport {
    pub report_schema: String,
    pub report_version: u32,
    pub left_label: String,
    pub right_label: String,
    pub left_archive_count: usize,
    pub right_archive_count: usize,
    pub exact_matches: usize,
    pub left_only_count: usize,
    pub right_only_count: usize,
    pub stem_matches: usize,
    pub left_only_folders: Vec<String>,
    pub right_only_folders: Vec<String>,
    pub left_only: Vec<ExtractCheckEntry>,
    pub right_only: Vec<ExtractCheckEntry>,
    pub matched_by_stem: Vec<ExtractCheckMatch>,
}

// ---------------------------------------------------------------------------
// The archives of a tree
// ---------------------------------------------------------------------------

/// The signature of what an archive of a path holds.
pub open spec fn payload_of(path: Seq<char>) -> Option<Seq<char>> {
    match archive_family_of(path) {
        Some(family) => payload_signature_of(path, family),
        None => None,
    }
}

/// How deep archives are nested in one of this path.
pub open spec fn depth_of(path: Seq<char>) -> nat {
    match archive_family_of(path) {
        Some(family) => family_words(family).len(),
        None => 0,
    }
}

/// Whether this is the archive of a row.
pub open spec fn is_entry_of(e: ExtractCheckEntry, row: FileRecord) -> bool {
    let path = row.rel_path@;
    &&& e.path@ == path
    &&& e.folder@ == folder_of(path)
    &&& e.stem@ == archive_stem(path)
    &&& e.virtual_path@ == virtual_path_of(path)
    &&& e.virtual_member@ == virtual_member_of(path)
    &&& opt_text(e.archive_family) == archive_family_of(path)
    &&& opt_text(e.payload_signature) == payload_of(path)
    &&& e.archive_depth == depth_of(path)
    &&& e.size == row.size
    &&& e.mtime_ns == row.mtime_ns
    &&& opt_text(e.fast_hash) == opt_text(row.fast_hash)
}

/// The rows that are archives.
pub open spec fn archive_rows(rows: Seq<FileRecord>) -> Seq<FileRecord> {
    rows.filter(|row: FileRecord| names_archive(row.rel_path@))
}

/// The archive of a row.
pub fn build_archive_entry(row: &FileRecord) -> (r: ExtractCheckEntry)
    ensures
        is_entry_of(r, *row),
{
    let path = row.rel_path.as_str();
    let archive_family = infer_archive_family(path);
    let (payload_signature, archive_depth): (Option<String>, usize) = match &archive_family {
        Some(family) => (
            infer_archive_payload_signature(path, family.as_str()),
            archive_family_depth(family.as_str()),
        ),
        None => (None, 0),
    };
    ExtractCheckEntry {
        path: row.rel_path.clone(),
        folder: folder_path_from_row(path),
        stem: build_archive_stem(path),
        virtual_path: build_virtual_archive_path(path),
        virtual_member: build_virtual_archive_member_path(path),
        archive_family,
        payload_signature,
        archive_depth,
        size: row.size,
        mtime_ns: row.mtime_ns,
        fast_hash: copy_opt(&row.fast_hash),
    }
}

/// The archives among the rows.
pub fn build_archive_entries(rows: &Vec<FileRecord>) -> (r: Vec<ExtractCheckEntry>)
    ensures
        r@.len() == archive_rows(rows@).len(),
        forall|i: int| 0 <= i < r@.len() ==> is_entry_of(#[trigger] r@[i], archive_rows(rows@)[i]),
{
    let ghost keep = |row: FileRecord| names_archive(row.rel_path@);
    let ghost all = rows@;
    let mut r: Vec<ExtractCheckEntry> = Vec::new();
    let mut i: usize = 0;
    proof {
        lemma_filter_start(all, keep);
    }
    while i < rows.len()
        invariant
            i <= rows@.len(),
            all == rows@,
            keep == (|row: FileRecord| names_archive(row.rel_path@)),
            r@.len() == all.take(i as int).filter(keep).len(),
            forall|k: int|
                0 <= k < r@.len() ==> is_entry_of(
                    #[trigger] r@[k],
                    all.take(i as int).filter(keep)[k],
                ),
        decreases rows@.len() - i,
    {
        proof {
            lemma_filter_step(all, keep, i as int);
        }
        let row = &rows[i];
        if is_archive_path(row.rel_path.as_str()) {
            r.push(build_archive_entry(row));
            assert(all.take(i as int + 1).filter(keep) =~= all.take(i as int).filter(keep).push(
                *row,
            ));
        }
        i = i + 1;
    }
    assert(all.take(i as int) =~= all);
    r
}

impl ExtractCheckEntry {
    pub fn copy(&self) -> (r: Self)
        ensures
            r == *self,
    {
        ExtractCheckEntry {
            path: self.path.clone(),
            folder: self.folder.clone(),
            stem: self.stem.clone(),
            virtual_path: self.virtual_path.clone(),
            virtual_member: self.virtual_member.clone(),
            archive_family: copy_opt(&self.archive_family),
            payload_signature: copy_opt(&self.payload_signature),
            archive_depth: self.archive_depth,
            size: self.size,
            mtime_ns: self.mtime_ns,
            fast_hash: copy_opt(&self.fast_hash),
        }
    }
}

// ---------------------------------------------------------------------------
// Archives of one tree only
// ---------------------------------------------------------------------------

pub open spec fn entry_paths(v: Seq<ExtractCheckEntry>) -> Seq<Seq<char>> {
    v.map_values(|e: ExtractCheckEntry| e.path@)
}

pub open spec fn entry_stems(v: Seq<ExtractCheckEntry>) -> Seq<Seq<char>> {
    v.map_values(|e: ExtractCheckEntry| e.stem@)
}

/// The archives whose paths the other tree has not, in the order of the paths.
pub open spec fn only_entries(a: Seq<ExtractCheckEntry>, b: Seq<ExtractCheckEntry>) -> Seq<
    ExtractCheckEntry,
> {
    items_at(a, entry_paths(a), only_in(entry_paths(a), entry_paths(b)))
}

/// The archives that an index holds; where it holds none, those among its rows.
pub fn archives_or_built(stored: Vec<ExtractCheckEntry>, rows: &Vec<FileRecord>) -> (r: Vec<
    ExtractCheckEntry,
>)
    ensures
        stored@.len() > 0 ==> r@ == stored@,
        stored@.len() == 0 ==> r@.len() == archive_rows(rows@).len() && forall|i: int|
            0 <= i < r@.len() ==> is_entry_of(#[trigger] r@[i], archive_rows(rows@)[i]),
{
    if stored.len() == 0 {
        build_archive_entries(rows)
    } else {
        stored
    }
}

fn path_list(v: &Vec<ExtractCheckEntry>) -> (r: Vec<String>)
    ensures
        texts(r@) == entry_paths(v@),
{
    let mut r: Vec<String> = Vec::new();
    let mut i: usize = 0;
    while i < v.len()
        invariant
            i <= v@.len(),
            r@.len() == i,
            forall|k: int| 0 <= k < i ==> (#[trigger] r@[k])@ == v@[k].path@,
        decreases v@.len() - i,
    {
        r.push(v[i].path.clone());
        i = i + 1;
    }
    assert(texts(r@) =~= entry_paths(v@));
    r
}

/// The archives at places of a list.
pub(crate) fn pick(v: &Vec<ExtractCheckEntry>, at: &Vec<usize>) -> (r: Vec<ExtractCheckEntry>)
    requires
        forall|i: int| 0 <= i < at@.len() ==> (#[trigger] at@[i]) < v@.len(),
    ensures
        r@ == at@.map_values(|i: usize| v@[i as int]),
{
    let mut r: Vec<ExtractCheckEntry> = Vec::new();
    let mut i: usize = 0;
    while i < at.len()
        invariant
            i <= at@.len(),
            r@.len() == i,
            forall|k: int| 0 <= k < at@.len() ==> (#[trigger] at@[k]) < v@.len(),
            forall|k: int| 0 <= k < i ==> #[trigger] r@[k] == v@[at@[k] as int],
        decreases at@.len() - i,
    {
        r.push(v[at[i]].copy());
        i = i + 1;
    }
    assert(r@ =~= at@.map_values(|i: usize| v@[i as int]));
    r
}

// ---------------------------------------------------------------------------
// Archives of the same stem
// ---------------------------------------------------------------------------

/// How many archives of this stem stand before an index.
pub open spec fn stem_rank(v: Seq<ExtractCheckEntry>, i: int) -> int {
    places(entry_stems(v).take(i), v[i].stem@).len() as int
}

/// Where the archives of a stem stand.
pub open spec fn stem_places(v: Seq<ExtractCheckEntry>, stem: Seq<char>) -> Seq<int> {
    places(entry_stems(v), stem)
}

/// Whether a left archive finds a right one: the first ones of a stem do, as
/// many as there are right ones.
pub open spec fn finds(a: Seq<ExtractCheckEntry>, b: Seq<ExtractCheckEntry>, i: int) -> bool {
    stem_rank(a, i) < stem_places(b, a[i].stem@).len()
}

/// Where the right archive stands that a left one finds: the first left one
/// finds the last right one, and so on.
pub open spec fn partner(a: Seq<ExtractCheckEntry>, b: Seq<ExtractCheckEntry>, i: int) -> int {
    let p = stem_places(b, a[i].stem@);
    p[p.len() - 1 - stem_rank(a, i)]
}

/// Whether a right archive is found.
pub open spec fn is_found(a: Seq<ExtractCheckEntry>, b: Seq<ExtractCheckEntry>, j: int) -> bool {
    let stem = b[j].stem@;
    stem_rank(b, j) + stem_places(a, stem).len() >= stem_places(b, stem).len()
}

pub open spec fn match_of(l: ExtractCheckEntry, r: ExtractCheckEntry) -> ExtractCheckMatch {
    ExtractCheckMatch {
        left_path: l.path,
        right_path: r.path,
        left_folder: l.folder,
        right_folder: r.folder,
        stem: l.stem,
        virtual_path: l.virtual_path,
        archive_family: l.archive_family,
        payload_signature: l.payload_signature,
        archive_depth: l.archive_depth,
        left_size: l.size,
        right_size: r.size,
        left_mtime_ns: l.mtime_ns,
        right_mtime_ns: r.mtime_ns,
        left_fast_hash: l.fast_hash,
        right_fast_hash: r.fast_hash,
    }
}

/// The matches of the first `n` left archives.
pub open spec fn matches_of(a: Seq<ExtractCheckEntry>, b: Seq<ExtractCheckEntry>, n: int) -> Seq<
    ExtractCheckMatch,
>
    decreases n,
{
    if n <= 0 {
        Seq::empty()
    } else if finds(a, b, n - 1) {
        matches_of(a, b, n - 1).push(match_of(a[n - 1], b[partner(a, b, n - 1)]))
    } else {
        matches_of(a, b, n - 1)
    }
}

/// Those of the first `n` left archives that find none.
pub open spec fn spare_left(a: Seq<ExtractCheckEntry>, b: Seq<ExtractCheckEntry>, n: int) -> Seq<
    ExtractCheckEntry,
>
    decreases n,
{
    if n <= 0 {
        Seq::empty()
    } else if finds(a, b, n - 1) {
        spare_left(a, b, n - 1)
    } else {
        spare_left(a, b, n - 1).push(a[n - 1])
    }
}

/// Those of the first `n` right archives that are not found.
pub open spec fn spare_right(a: Seq<ExtractCheckEntry>, b: Seq<ExtractCheckEntry>, n: int) -> Seq<
    ExtractCheckEntry,
>
    decreases n,
{
    if n <= 0 {
        Seq::empty()
    } else if is_found(a, b, n - 1) {
        spare_right(a, b, n - 1)
    } else {
        spare_right(a, b, n - 1).push(b[n - 1])
    }
}

/// The places that a map holds for a stem.
spec fn held(m: &TextMap<Vec<usize>>, stem: Seq<char>) -> Seq<int> {
    if m@.contains_key(stem) {
        as_ints(m@[stem]@)
    } else {
        Seq::empty()
    }
}

/// The places without the last `n`.
spec fn without_last(p: Seq<int>, n: int) -> Seq<int> {
    if n <= p.len() {
        p.take(p.len() - n)
    } else {
        Seq::empty()
    }
}

/// Where the archives of each stem stand.
fn group_by_stem(v: &Vec<ExtractCheckEntry>) -> (r: TextMap<Vec<usize>>)
    ensures
        r.wf(),
        forall|s: Seq<char>| #[trigger] held(&r, s) == stem_places(v@, s),
{
    let mut r: TextMap<Vec<usize>> = TextMap::new();
    let ghost stems = entry_stems(v@);
    let mut i: usize = 0;
    assert(stems.take(0) =~= Seq::empty());
    while i < v.len()
        invariant
            i <= v@.len(),
            r.wf(),
            stems == entry_stems(v@),
            forall|s: Seq<char>| #[trigger] held(&r, s) == places(stems.take(i as int), s),
        decreases v@.len() - i,
    {
        let ghost before = r;
        let ghost stem = v@[i as int].stem@;
        let k = r.find_or_insert(v[i].stem.clone(), Vec::new());
        let ghost middle = r;
        proof {
            middle.lemma_entries();
            assert(middle@.contains_key(stem));
            assert(middle@[stem] == middle.value_seq()[k as int]);
        }
        let list = r.value_mut(k);
        let ghost old_list = list@;
        list.push(i);
        proof {
            TextMap::lemma_updated(middle, r, k as int);
            let next = stems.take(i as int + 1);
            assert(next.drop_last() =~= stems.take(i as int));
            assert forall|s: Seq<char>| #[trigger] held(&r, s) == places(next, s) by {
                assert(held(&before, s) == places(stems.take(i as int), s));
                if s == stem {
                    assert(as_ints(old_list) =~= held(&before, s));
                    assert(as_ints(r@[s]@) =~= as_ints(old_list).push(i as int));
                } else {
                    assert(r@.contains_key(s) == before@.contains_key(s));
                }
            }
        }
        i = i + 1;
    }
    assert(stems.take(i as int) =~= stems);
    r
}

fn make_match(l: &ExtractCheckEntry, r: &ExtractCheckEntry) -> (m: ExtractCheckMatch)
    ensures
        m == match_of(*l, *r),
{
    ExtractCheckMatch {
        left_path: l.path.clone(),
        right_path: r.path.clone(),
        left_folder: l.folder.clone(),
        right_folder: r.folder.clone(),
        stem: l.stem.clone(),
        virtual_path: l.virtual_path.clone(),
        archive_family: copy_opt(&l.archive_family),
        payload_signature: copy_opt(&l.payload_signature),
        archive_depth: l.archive_depth,
        left_size: l.size,
        right_size: r.size,
        left_mtime_ns: l.mtime_ns,
        right_mtime_ns: r.mtime_ns,
        left_fast_hash: copy_opt(&l.fast_hash),
        right_fast_hash: copy_opt(&r.fast_hash),
    }
}

/// What the archives of two trees come to, by their stems.
struct StemMatches {
    matched: Vec<ExtractCheckMatch>,
    left: Vec<ExtractCheckEntry>,
    right: Vec<ExtractCheckEntry>,
}

fn match_stems(a: &Vec<ExtractCheckEntry>, b: &Vec<ExtractCheckEntry>) -> (r: StemMatches)
    ensures
        r.matched@ == matches_of(a@, b@, a@.len() as int),
        r.left@ == spare_left(a@, b@, a@.len() as int),
        r.right@ == spare_right(a@, b@, b@.len() as int),
{
    let mut groups = group_by_stem(b);
    let mut matched: Vec<ExtractCheckMatch> = Vec::new();
    let mut left: Vec<ExtractCheckEntry> = Vec::new();
    let ghost sa = entry_stems(a@);
    let ghost sb = entry_stems(b@);
    let mut i: usize = 0;
    proof {
        assert(sa.take(0) =~= Seq::empty());
        assert forall|s: Seq<char>| #[trigger]
            held(&groups, s) == without_last(places(sb, s), places(sa.take(0), s).len() as int) by {
            assert(places(sb, s).take(places(sb, s).len() as int) =~= places(sb, s));
        }
    }
    while i < a.len()
        invariant
            i <= a@.len(),
            sa == entry_stems(a@),
            sb == entry_stems(b@),
            groups.wf(),
            forall|s: Seq<char>| #[trigger]
                held(&groups, s) == without_last(
                    places(sb, s),
                    places(sa.take(i as int), s).len() as int,
                ),
            matched@ == matches_of(a@, b@, i as int),
            left@ == spare_left(a@, b@, i as int),
        decreases a@.len() - i,
    {
        let entry = &a[i];
        let ghost stem = entry.stem@;
        let ghost before = groups;
        let ghost next = sa.take(i as int + 1);
        let ghost p = places(sb, stem);
        let ghost rank = places(sa.take(i as int), stem).len() as int;
        proof {
            assert(next.drop_last() =~= sa.take(i as int));
            assert(next.last() == stem);
            lemma_places(sb, stem);
            groups.lemma_entries();
            assert(held(&groups, stem) == without_last(p, rank));
        }
        let mut found: Option<usize> = None;
        if let Ok(k) = groups.position(entry.stem.as_str()) {
            proof {
                assert(groups@.contains_key(stem));
                assert(groups@[stem] == groups.value_seq()[k as int]);
                assert(held(&groups, stem) == as_ints(groups@[stem]@));
            }
            let list = groups.value_mut(k);
            let ghost old_list = list@;
            found = list.pop();
            proof {
                TextMap::lemma_updated(before, groups, k as int);
                if old_list.len() > 0 {
                    assert(as_ints(groups@[stem]@) =~= as_ints(old_list).drop_last());
                    assert(found == Some(old_list.last()));
                    assert(as_ints(old_list).last() == p.take(p.len() - rank).last());
                    assert(found->0 == p[p.len() - 1 - rank]);
                } else {
                    assert(as_ints(groups@[stem]@) =~= Seq::empty());
                }
            }
        } else {
            proof {
                assert(!groups.key_seq().contains(stem)) by {
                    if groups.key_seq().contains(stem) {
                        let x = groups.key_seq().index_of(stem);
                        assert(groups.key_seq()[x] == stem);
                        lemma_text_lt_irreflexive(stem);
                    }
                }
                assert(held(&groups, stem) =~= Seq::empty());
            }
        }
        proof {
            assert((found is Some) == (rank < p.len()));
            assert forall|s: Seq<char>| #[trigger]
                held(&groups, s) == without_last(places(sb, s), places(next, s).len() as int) by {
                assert(held(&before, s) == without_last(
                    places(sb, s),
                    places(sa.take(i as int), s).len() as int,
                ));
                if s == stem {
                    assert(places(next, s).len() == rank + 1);
                    if rank < p.len() {
                        assert(p.take(p.len() - rank).drop_last() =~= p.take(p.len() - rank - 1));
                    }
                }
            }
        }
        match found {
            Some(j) => {
                matched.push(make_match(entry, &b[j]));
            },
            None => {
                left.push(entry.copy());
            },
        }
        i = i + 1;
    }
    proof {
        assert(sa.take(i as int) =~= sa);
        assert(sb.take(0) =~= Seq::empty());
    }
    let mut seen: TextMap<usize> = TextMap::new();
    let mut right: Vec<ExtractCheckEntry> = Vec::new();
    let mut j: usize = 0;
    while j < b.len()
        invariant
            j <= b@.len(),
            sa == entry_stems(a@),
            sb == entry_stems(b@),
            groups.wf(),
            forall|s: Seq<char>| #[trigger]
                held(&groups, s) == without_last(places(sb, s), places(sa, s).len() as int),
            seen.wf(),
            forall|s: Seq<char>| #[trigger] seen_of(&seen, s) == places(sb.take(j as int), s).len(),
            right@ == spare_right(a@, b@, j as int),
        decreases b@.len() - j,
    {
        let entry = &b[j];
        let ghost stem = entry.stem@;
        let ghost before = seen;
        let ghost next = sb.take(j as int + 1);
        proof {
            assert(next.drop_last() =~= sb.take(j as int));
            lemma_places(sb.take(j as int), stem);
            lemma_places_take(sb, stem, j as int + 1);
            assert(held(&groups, stem) == without_last(
                places(sb, stem),
                places(sa, stem).len() as int,
            ));
            assert(seen_of(&before, stem) == places(sb.take(j as int), stem).len());
        }
        let spare: usize = match groups.get(entry.stem.as_str()) {
            Some(list) => list.len(),
            None => 0,
        };
        let rank: usize = match seen.get(entry.stem.as_str()) {
            Some(n) => *n,
            None => 0,
        };
        assert(spare == held(&groups, stem).len());
        if rank < spare {
            right.push(entry.copy());
        }
        seen.insert(entry.stem.clone(), rank + 1);
        proof {
            assert forall|s: Seq<char>| #[trigger]
                seen_of(&seen, s) == places(next, s).len() by {
                assert(seen_of(&before, s) == places(sb.take(j as int), s).len());
            }
        }
        j = j + 1;
    }
    StemMatches { matched, left, right }
}

/// How often a stem was seen.
spec fn seen_of(m: &TextMap<usize>, stem: Seq<char>) -> int {
    if m@.contains_key(stem) {
        m@[stem] as int
    } else {
        0
    }
}

// ---------------------------------------------------------------------------
// The report
// ---------------------------------------------------------------------------

impl Ranked for ExtractCheckMatch {
    open spec fn is_ranked(&self) -> bool {
        true
    }

    /// By stem, and by left path where the stems are the same.
    open spec fn before(&self, other: &Self) -> bool {
        pair_lt((self.stem@, self.left_path@), (other.stem@, other.left_path@))
    }

    proof fn lemma_asymmetric(a: &Self, b: &Self) {
        lemma_pair_asymmetric((a.stem@, a.left_path@), (b.stem@, b.left_path@));
    }

    proof fn lemma_negatively_transitive(a: &Self, b: &Self, c: &Self) {
        lemma_pair_negatively_transitive(
            (a.stem@, a.left_path@),
            (b.stem@, b.left_path@),
            (c.stem@, c.left_path@),
        );
    }

    fn is_before(&self, other: &Self) -> (r: bool) {
        pair_before(
            self.stem.as_str(),
            self.left_path.as_str(),
            other.stem.as_str(),
            other.left_path.as_str(),
        )
    }
}

pub open spec fn entry_folders(v: Seq<ExtractCheckEntry>) -> Seq<Seq<char>> {
    v.map_values(|e: ExtractCheckEntry| e.folder@)
}

fn build_unique_folders(v: &Vec<ExtractCheckEntry>) -> (r: Vec<String>)
    ensures
        texts(r@) == sorted_set(entry_folders(v@)),
{
    let mut folders: Vec<String> = Vec::new();
    let mut i: usize = 0;
    while i < v.len()
        invariant
            i <= v@.len(),
            folders@.len() == i,
            forall|k: int| 0 <= k < i ==> (#[trigger] folders@[k])@ == v@[k].folder@,
        decreases v@.len() - i,
    {
        folders.push(v[i].folder.clone());
        i = i + 1;
    }
    assert(texts(folders@) =~= entry_folders(v@));
    sort_distinct(&folders)
}

/// Whether a report tells of the archives of two trees.
pub open spec fn reports_on(
    report: &ExtractCheckReport,
    left: Seq<ExtractCheckEntry>,
    right: Seq<ExtractCheckEntry>,
) -> bool {
    let a = only_entries(left, right);
    let b = only_entries(right, left);
    &&& report.left_archive_count == sorted_set(entry_paths(left)).len()
    &&& report.right_archive_count == sorted_set(entry_paths(right)).len()
    &&& report.exact_matches == in_both(entry_paths(left), entry_paths(right)).len()
    &&& report.left_only@ == spare_left(a, b, a.len() as int)
    &&& report.right_only@ == spare_right(a, b, b.len() as int)
    &&& in_order(report.matched_by_stem@)
    &&& report.matched_by_stem@.to_multiset() == matches_of(a, b, a.len() as int).to_multiset()
    &&& report.left_only_count == report.left_only@.len()
    &&& report.right_only_count == report.right_only@.len()
    &&& report.stem_matches == report.matched_by_stem@.len()
    &&& texts(report.left_only_folders@) == sorted_set(entry_folders(report.left_only@))
    &&& texts(report.right_only_folders@) == sorted_set(entry_folders(report.right_only@))
}

/// Compares the archives of two trees.
pub fn check_extracts(
    left: &Vec<ExtractCheckEntry>,
    right: &Vec<ExtractCheckEntry>,
    left_label: &str,
    right_label: &str,
) -> (r: ExtractCheckReport)
    ensures
        r.report_schema@ == "nightindex.extract_check"@,
        r.report_version == 1,
        r.left_label@ == left_label@,
        r.right_label@ == right_label@,
        reports_on(&r, left@, right@),
{
    let ghost lp = entry_paths(left@);
    let ghost rp = entry_paths(right@);
    let left_index = index_last(&path_list(left));
    let right_index = index_last(&path_list(right));
    let left_at = places_only_in(&left_index, &right_index, Ghost(lp), Ghost(rp));
    let right_at = places_only_in(&right_index, &left_index, Ghost(rp), Ghost(lp));
    let a = pick(left, &left_at);
    let b = pick(right, &right_at);
    proof {
        assert(a@ =~= only_entries(left@, right@));
        assert(b@ =~= only_entries(right@, left@));
    }
    let exact: usize = left_index.len() - left_at.len();
    let found = match_stems(&a, &b);
    let matched = sort(found.matched);
    let left_only_folders = build_unique_folders(&found.left);
    let right_only_folders = build_unique_folders(&found.right);
    ExtractCheckReport {
        report_schema: from_chars(&to_chars("nightindex.extract_check")),
        report_version: 1,
        left_label: from_chars(&to_chars(left_label)),
        right_label: from_chars(&to_chars(right_label)),
        left_archive_count: left_index.len(),
        right_archive_count: right_index.len(),
        exact_matches: exact,
        left_only_count: found.left.len(),
        right_only_count: found.right.len(),
        stem_matches: matched.len(),
        left_only_folders,
        right_only_folders,
        left_only: found.left,
        right_only: found.right,
        matched_by_stem: matched,
    }
}

/// What is told of a report.
pub open spec fn check_line(report: &ExtractCheckReport) -> Seq<char> {
    "[extract-check] summary: "@ + decimal(report.exact_matches as nat) + " exact matches, "@
        + decimal(report.stem_matches as nat) + " stem matches, "@ + decimal(
        report.left_only_count as nat,
    ) + " left-only entries ("@ + decimal(report.left_only_folders@.len()) + " folders), "@
        + decimal(report.right_only_count as nat) + " right-only entries ("@ + decimal(
        report.right_only_folders@.len(),
    ) + " folders)"@
}

/// What is told of a report.
pub fn tell_check(report: &ExtractCheckReport) -> (r: String)
    ensures
        r@ == check_line(report),
{
    let mut out = to_chars("[extract-check] summary: ");
    extend(&mut out, &decimal_chars(report.exact_matches as u128));
    extend_str(&mut out, " exact matches, ");
    extend(&mut out, &decimal_chars(report.stem_matches as u128));
    extend_str(&mut out, " stem matches, ");
    extend(&mut out, &decimal_chars(report.left_only_count as u128));
    extend_str(&mut out, " left-only entries (");
    extend(&mut out, &decimal_chars(report.left_only_folders.len() as u128));
    extend_str(&mut out, " folders), ");
    extend(&mut out, &decimal_chars(report.right_only_count as u128));
    extend_str(&mut out, " right-only entries (");
    extend(&mut out, &decimal_chars(report.right_only_folders.len() as u128));
    extend_str(&mut out, " folders)");
    from_chars(&out)
}

// ---------------------------------------------------------------------------
// The table
// ---------------------------------------------------------------------------

/// A row of a table on two trees: a section, the labels, and cells.
pub open spec fn labelled(
    section: Seq<char>,
    left: Seq<char>,
    right: Seq<char>,
    cells: Seq<Seq<char>>,
) -> Seq<char> {
    csv_row(seq![section, csv_field(left), csv_field(right)] + cells)
}

/// Appends a row of a table on two trees.
pub(crate) fn push_labelled(
    out: &mut Vec<char>,
    section: &str,
    left: &str,
    right: &str,
    cells: Vec<Vec<char>>,
)
    ensures
        final(out)@ == old(out)@ + labelled(section@, left@, right@, char_texts(cells@)),
{
    let mut all: Vec<Vec<char>> = Vec::new();
    assert(char_texts(all@) =~= Seq::empty());
    push_cell(&mut all, to_chars(section));
    push_field(&mut all, left);
    push_field(&mut all, right);
    let ghost head = char_texts(all@);
    let ghost tail = cells@;
    let mut cells = cells;
    all.append(&mut cells);
    proof {
        assert(head =~= seq![section@, csv_field(left@), csv_field(right@)]);
        assert(char_texts(all@) =~= head + char_texts(tail));
    }
    push_row(out, &all);
}

/// Appends a row of a metric and a number.
pub(crate) fn push_metric(
    out: &mut Vec<char>,
    section: &str,
    left: &str,
    right: &str,
    metric: &str,
    value: u128,
)
    ensures
        final(out)@ == old(out)@ + labelled(
            section@,
            left@,
            right@,
            seq![metric@, decimal(value as nat)],
        ),
{
    let mut cells: Vec<Vec<char>> = Vec::new();
    cells.push(to_chars(metric));
    cells.push(decimal_chars(value));
    assert(char_texts(cells@) =~= seq![metric@, decimal(value as nat)]);
    push_labelled(out, section, left, right, cells);
}

/// Appends a row of a metric and a text.
pub(crate) fn push_text(
    out: &mut Vec<char>,
    section: &str,
    left: &str,
    right: &str,
    metric: &str,
    value: &str,
)
    ensures
        final(out)@ == old(out)@ + labelled(section@, left@, right@, seq![metric@, csv_field(value@)]),
{
    let mut cells: Vec<Vec<char>> = Vec::new();
    assert(char_texts(cells@) =~= Seq::empty());
    push_cell(&mut cells, to_chars(metric));
    push_field(&mut cells, value);
    assert(char_texts(cells@) =~= seq![metric@, csv_field(value@)]);
    push_labelled(out, section, left, right, cells);
}

/// A row for each of the first `n` texts.
pub open spec fn text_rows(
    section: Seq<char>,
    left: Seq<char>,
    right: Seq<char>,
    metric: Seq<char>,
    values: Seq<Seq<char>>,
) -> Seq<char>
    decreases values.len(),
{
    if values.len() == 0 {
        Seq::empty()
    } else {
        text_rows(section, left, right, metric, values.drop_last()) + labelled(
            section,
            left,
            right,
            seq![metric, csv_field(values.last())],
        )
    }
}

/// Appends a row for each text.
pub(crate) fn push_texts(
    out: &mut Vec<char>,
    section: &str,
    left: &str,
    right: &str,
    metric: &str,
    values: &Vec<String>,
)
    ensures
        final(out)@ == old(out)@ + text_rows(section@, left@, right@, metric@, texts(values@)),
{
    let ghost start = out@;
    let ghost all = texts(values@);
    let mut i: usize = 0;
    proof {
        assert(all.take(0) =~= Seq::empty());
        assert(start + Seq::<char>::empty() =~= start);
    }
    while i < values.len()
        invariant
            i <= values@.len(),
            all == texts(values@),
            out@ == start + text_rows(section@, left@, right@, metric@, all.take(i as int)),
        decreases values@.len() - i,
    {
        let ghost before = out@;
        push_text(out, section, left, right, metric, values[i].as_str());
        proof {
            let next = all.take(i as int + 1);
            assert(next.drop_last() =~= all.take(i as int));
            assert(out@ =~= start + text_rows(section@, left@, right@, metric@, next));
        }
        i = i + 1;
    }
    assert(all.take(i as int) =~= all);
}

/// The rows of a match.
pub open spec fn match_rows(m: ExtractCheckMatch, left: Seq<char>, right: Seq<char>) -> Seq<char> {
    labelled(
        "stem_match"@,
        left,
        right,
        seq!["stem"@, csv_field(m.stem@), csv_field(m.left_path@ + "|"@ + m.right_path@)],
    ) + labelled(
        "stem_match"@,
        left,
        right,
        seq![
            "virtual_path"@,
            csv_field(m.virtual_path@),
            csv_field(
                match m.payload_signature {
                    Some(s) => s@,
                    None => Seq::empty(),
                },
            ),
        ],
    )
}

pub open spec fn all_match_rows(v: Seq<ExtractCheckMatch>, left: Seq<char>, right: Seq<char>) -> Seq<
    char,
>
    decreases v.len(),
{
    if v.len() == 0 {
        Seq::empty()
    } else {
        all_match_rows(v.drop_last(), left, right) + match_rows(v.last(), left, right)
    }
}

fn push_match(out: &mut Vec<char>, m: &ExtractCheckMatch, left: &str, right: &str)
    ensures
        final(out)@ == old(out)@ + match_rows(*m, left@, right@),
{
    let ghost start = out@;
    let mut cells: Vec<Vec<char>> = Vec::new();
    assert(char_texts(cells@) =~= Seq::empty());
    let pair = concat3(m.left_path.as_str(), "|", m.right_path.as_str());
    push_cell(&mut cells, to_chars("stem"));
    push_field(&mut cells, m.stem.as_str());
    push_field(&mut cells, pair.as_str());
    assert(char_texts(cells@) =~= seq![
        "stem"@,
        csv_field(m.stem@),
        csv_field(m.left_path@ + "|"@ + m.right_path@),
    ]);
    push_labelled(out, "stem_match", left, right, cells);
    let mut cells: Vec<Vec<char>> = Vec::new();
    assert(char_texts(cells@) =~= Seq::empty());
    push_cell(&mut cells, to_chars("virtual_path"));
    push_field(&mut cells, m.virtual_path.as_str());
    match &m.payload_signature {
        Some(s) => {
            push_field(&mut cells, s.as_str());
        },
        None => {
            proof {
                reveal_strlit("");
                assert(""@ =~= Seq::empty());
            }
            push_field(&mut cells, "");
        },
    }
    assert(char_texts(cells@) =~= seq![
        "virtual_path"@,
        csv_field(m.virtual_path@),
        csv_field(
            match m.payload_signature {
                Some(s) => s@,
                None => Seq::empty(),
            },
        ),
    ]);
    push_labelled(out, "stem_match", left, right, cells);
    assert(out@ =~= start + match_rows(*m, left@, right@));
}

/// The table of a report.
pub open spec fn check_table(report: &ExtractCheckReport) -> Seq<char> {
    let l = report.left_label@;
    let r = report.right_label@;
    let count = |metric: Seq<char>, n: usize|
        labelled("summary"@, l, r, seq![metric, decimal(n as nat)]);
    "section,left_label,right_label,metric,value\n"@ + count(
        "left_archive_count"@,
        report.left_archive_count,
    ) + count("right_archive_count"@, report.right_archive_count) + count(
        "exact_matches"@,
        report.exact_matches,
    ) + count("left_only_count"@, report.left_only_count) + count(
        "right_only_count"@,
        report.right_only_count,
    ) + count("stem_matches"@, report.stem_matches) + text_rows(
        "left_only"@,
        l,
        r,
        "folder"@,
        texts(report.left_only_folders@),
    ) + text_rows("right_only"@, l, r, "folder"@, texts(report.right_only_folders@)) + text_rows(
        "left_only_entry"@,
        l,
        r,
        "path"@,
        entry_paths(report.left_only@),
    ) + text_rows("right_only_entry"@, l, r, "path"@, entry_paths(report.right_only@))
        + all_match_rows(report.matched_by_stem@, l, r)
}

pub fn build_extract_check_csv(report: &ExtractCheckReport) -> (r: String)
    ensures
        r@ == check_table(report),
{
    let left = report.left_label.as_str();
    let right = report.right_label.as_str();
    let mut out = to_chars("section,left_label,right_label,metric,value\n");
    push_metric(
        &mut out,
        "summary",
        left,
        right,
        "left_archive_count",
        report.left_archive_count as u128,
    );
    push_metric(
        &mut out,
        "summary",
        left,
        right,
        "right_archive_count",
        report.right_archive_count as u128,
    );
    push_metric(&mut out, "summary", left, right, "exact_matches", report.exact_matches as u128);
    push_metric(
        &mut out,
        "summary",
        left,
        right,
        "left_only_count",
        report.left_only_count as u128,
    );
    push_metric(
        &mut out,
        "summary",
        left,
        right,
        "right_only_count",
        report.right_only_count as u128,
    );
    push_metric(&mut out, "summary", left, right, "stem_matches", report.stem_matches as u128);
    push_texts(&mut out, "left_only", left, right, "folder", &report.left_only_folders);
    push_texts(&mut out, "right_only", left, right, "folder", &report.right_only_folders);
    push_texts(&mut out, "left_only_entry", left, right, "path", &path_list(&report.left_only));
    push_texts(&mut out, "right_only_entry", left, right, "path", &path_list(&report.right_only));
    let ghost start = out@;
    let ghost all = report.matched_by_stem@;
    let mut i: usize = 0;
    proof {
        assert(all.take(0) =~= Seq::empty());
        assert(start + Seq::<char>::empty() =~= start);
    }
    while i < report.matched_by_stem.len()
        invariant
            i <= all.len(),
            all == report.matched_by_stem@,
            left@ == report.left_label@,
            right@ == report.right_label@,
            out@ == start + all_match_rows(all.take(i as int), left@, right@),
        decreases all.len() - i,
    {
        push_match(&mut out, &report.matched_by_stem[i], left, right);
        proof {
            let next = all.take(i as int + 1);
            assert(next.drop_last() =~= all.take(i as int));
            assert(out@ =~= start + all_match_rows(next, left@, right@));
        }
        i = i + 1;
    }
    assert(all.take(i as int) =~= all);
    from_chars(&out)
}

// ---------------------------------------------------------------------------
// Laws
// ---------------------------------------------------------------------------

/// Every left archive that the right tree has not is matched or left over.
pub proof fn law_left_archives_add_up(
    a: Seq<ExtractCheckEntry>,
    b: Seq<ExtractCheckEntry>,
    n: int,
)
    requires
        0 <= n <= a.len(),
    ensures
        matches_of(a, b, n).len() + spare_left(a, b, n).len() == n,
    decreases n,
{
    if n > 0 {
        law_left_archives_add_up(a, b, n - 1);
    }
}

proof fn lemma_matches_count(a: Seq<ExtractCheckEntry>, b: Seq<ExtractCheckEntry>, n: int)
    requires
        0 <= n <= a.len(),
    ensures
        set_int_range(0, n).filter(|i: int| finds(a, b, i)).finite(),
        set_int_range(0, n).filter(|i: int| finds(a, b, i)).len() == matches_of(a, b, n).len(),
    decreases n,
{
    let f = |i: int| finds(a, b, i);
    let all = set_int_range(0, n).filter(f);
    if n > 0 {
        lemma_matches_count(a, b, n - 1);
        let before = set_int_range(0, n - 1).filter(f);
        if finds(a, b, n - 1) {
            assert(all =~= before.insert(n - 1));
        } else {
            assert(all =~= before);
        }
    } else {
        assert(all =~= Set::<int>::empty());
    }
}

proof fn lemma_spare_count(a: Seq<ExtractCheckEntry>, b: Seq<ExtractCheckEntry>, n: int)
    requires
        0 <= n <= b.len(),
    ensures
        set_int_range(0, n).filter(|j: int| is_found(a, b, j)).finite(),
        set_int_range(0, n).filter(|j: int| is_found(a, b, j)).len() + spare_right(a, b, n).len()
            == n,
    decreases n,
{
    let f = |j: int| is_found(a, b, j);
    let all = set_int_range(0, n).filter(f);
    if n > 0 {
        lemma_spare_count(a, b, n - 1);
        let before = set_int_range(0, n - 1).filter(f);
        if is_found(a, b, n - 1) {
            assert(all =~= before.insert(n - 1));
        } else {
            assert(all =~= before);
        }
    } else {
        assert(all =~= Set::<int>::empty());
    }
}

/// Every right archive that the left tree has not is matched or left over.
pub proof fn law_right_archives_add_up(a: Seq<ExtractCheckEntry>, b: Seq<ExtractCheckEntry>)
    ensures
        matches_of(a, b, a.len() as int).len() + spare_right(a, b, b.len() as int).len() == b.len(),
{
    let finders = set_int_range(0, a.len() as int).filter(|i: int| finds(a, b, i));
    let found = set_int_range(0, b.len() as int).filter(|j: int| is_found(a, b, j));
    let to = |i: int| partner(a, b, i);
    lemma_matches_count(a, b, a.len() as int);
    lemma_spare_count(a, b, b.len() as int);
    assert forall|i: int, k: int|
        finders.contains(i) && finders.contains(k) && #[trigger] to(i) == #[trigger] to(
            k,
        ) implies i == k by {
        law_partner_is_found_once(a, b, i, k);
    }
    assert forall|j: int| finders.map(to).contains(j) <==> found.contains(j) by {
        if finders.map(to).contains(j) {
            let i = choose|i: int| finders.contains(i) && to(i) == j;
            law_partner_is_found_once(a, b, i, i);
            law_found_has_a_finder(a, b, j);
        }
        if found.contains(j) {
            law_found_has_a_finder(a, b, j);
            let i = choose|i: int|
                0 <= i < a.len() && #[trigger] finds(a, b, i) && partner(a, b, i) == j;
            assert(finders.contains(i) && to(i) == j);
        }
    }
    assert(finders.map(to) =~= found);
    lemma_map_size(finders, found, to);
}

/// Each archive of either tree stands at a path of both, is matched by its stem,
/// or is left over.
pub proof fn law_archives_add_up(
    report: &ExtractCheckReport,
    left: Seq<ExtractCheckEntry>,
    right: Seq<ExtractCheckEntry>,
)
    requires
        reports_on(report, left, right),
    ensures
        report.left_archive_count == report.exact_matches + report.stem_matches
            + report.left_only_count,
        report.right_archive_count == report.exact_matches + report.stem_matches
            + report.right_only_count,
{
    broadcast use vstd::seq_lib::group_to_multiset_ensures;

    let a = only_entries(left, right);
    let b = only_entries(right, left);
    lemma_parts_of_keys(entry_paths(left), entry_paths(right));
    lemma_parts_of_keys(entry_paths(right), entry_paths(left));
    law_left_archives_add_up(a, b, a.len() as int);
    law_right_archives_add_up(a, b);
    assert(report.matched_by_stem@.len() == report.matched_by_stem@.to_multiset().len());
    assert(matches_of(a, b, a.len() as int).len() == matches_of(
        a,
        b,
        a.len() as int,
    ).to_multiset().len());
}

/// The places of a key rise.
pub proof fn lemma_places_rise(keys: Seq<Seq<char>>, key: Seq<char>, i: int, j: int)
    requires
        0 <= i < j < places(keys, key).len(),
    ensures
        places(keys, key)[i] < places(keys, key)[j],
    decreases keys.len(),
{
    let init = keys.drop_last();
    lemma_places(init, key);
    if j < places(init, key).len() {
        lemma_places_rise(init, key, i, j);
    }
}

/// Where a key stands is the place of its rank.
pub proof fn lemma_place_of_rank(keys: Seq<Seq<char>>, i: int)
    requires
        0 <= i < keys.len(),
    ensures
        places(keys.take(i), keys[i]).len() < places(keys, keys[i]).len(),
        places(keys, keys[i])[places(keys.take(i), keys[i]).len() as int] == i,
{
    let key = keys[i];
    let next = keys.take(i + 1);
    assert(next.drop_last() =~= keys.take(i));
    lemma_places_take(keys, key, i + 1);
    let m = places(keys.take(i), key).len() as int;
    assert(places(next, key) == places(keys.take(i), key).push(i));
    assert(places(next, key)[m] == i);
}

/// The archive that a left one finds has its stem, and no other left one
/// finds it.
pub proof fn law_partner_is_found_once(
    a: Seq<ExtractCheckEntry>,
    b: Seq<ExtractCheckEntry>,
    i: int,
    k: int,
)
    requires
        0 <= i < a.len(),
        0 <= k < a.len(),
        finds(a, b, i),
        finds(a, b, k),
    ensures
        0 <= partner(a, b, i) < b.len(),
        b[partner(a, b, i)].stem@ == a[i].stem@,
        i != k ==> partner(a, b, i) != partner(a, b, k),
{
    let sa = entry_stems(a);
    let sb = entry_stems(b);
    lemma_places(sb, sa[i]);
    lemma_places(sb, sa[k]);
    assert(sb[partner(a, b, i)] == sa[i]);
    assert(sb[partner(a, b, k)] == sa[k]);
    if i != k && sa[i] == sa[k] {
        lemma_place_of_rank(sa, i);
        lemma_place_of_rank(sa, k);
        let p = places(sb, sa[i]);
        let x = p.len() - 1 - stem_rank(a, i);
        let y = p.len() - 1 - stem_rank(a, k);
        if x < y {
            lemma_places_rise(sb, sa[i], x, y);
        } else {
            lemma_places_rise(sb, sa[i], y, x);
        }
    }
}

/// The right archives that are found are those that a left one finds.
pub proof fn law_found_has_a_finder(
    a: Seq<ExtractCheckEntry>,
    b: Seq<ExtractCheckEntry>,
    j: int,
)
    requires
        0 <= j < b.len(),
    ensures
        is_found(a, b, j) <==> exists|i: int|
            0 <= i < a.len() && #[trigger] finds(a, b, i) && partner(a, b, i) == j,
{
    let sa = entry_stems(a);
    let sb = entry_stems(b);
    let stem = sb[j];
    let p = places(sb, stem);
    let q = places(sa, stem);
    lemma_place_of_rank(sb, j);
    let rank = stem_rank(b, j);
    if is_found(a, b, j) {
        let n = p.len() - 1 - rank;
        assert(0 <= n < q.len());
        lemma_places(sa, stem);
        let i = q[n];
        assert(sa[i] == stem);
        lemma_place_of_rank(sa, i);
        let m = stem_rank(a, i);
        if m < n {
            lemma_places_rise(sa, stem, m, n);
        } else if n < m {
            lemma_places_rise(sa, stem, n, m);
        }
        assert(m == n);
        assert(finds(a, b, i));
        assert(partner(a, b, i) == j);
    }
    if exists|i: int| 0 <= i < a.len() && #[trigger] finds(a, b, i) && partner(a, b, i) == j {
        let i = choose|i: int|
            0 <= i < a.len() && #[trigger] finds(a, b, i) && partner(a, b, i) == j;
        law_partner_is_found_once(a, b, i, i);
        assert(sa[i] == stem);
        lemma_place_of_rank(sa, i);
        let m = stem_rank(a, i);
        let x = p.len() - 1 - m;
        assert(p[x] == j && p[rank] == j);
        if x < rank {
            lemma_places_rise(sb, stem, x, rank);
        } else if rank < x {
            lemma_places_rise(sb, stem, rank, x);
        }
        assert(x == rank);
        assert(m < q.len());
    }
}

} // verus!
