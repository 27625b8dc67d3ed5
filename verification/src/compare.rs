//! How two trees differ, in numbers, and how long a copy will take.

use crate::cache::ReportCacheMetrics;
use crate::csv::{csv_field, csv_row, push_cell, push_field, push_row};
use crate::double::{
    divide, double_of, in_parts, of_nat, quotient, to_parts, to_whole, whole, Double, Scaled,
};
use crate::filter::{
    lemma_filter_all, lemma_filter_made, lemma_filter_none, lemma_filter_prefix, lemma_filter_start,
    lemma_filter_step, lemma_filter_twice,
};
use crate::number::{decimal, decimal_chars, fixed, fixed_chars};
use crate::plan::{item_of, to_copy, total_size, wanted_items, CopyPlanItem};
use crate::progress::{has_rate, rate_from_elapsed, rate_of};
use crate::record::{
    has_path, index_rows, indexes, last_index, lemma_last_index, paths_of, row_of, same_meta,
    sorted_paths, FileRecord,
};
use crate::text::{char_texts, extend, extend_str, from_chars, to_chars};
use crate::textmap::{
    ascending, lemma_ascending_unique, lemma_filter_ascending, lemma_sorted_set,
};
use vstd::prelude::*;

verus! {

/// How two trees differ.
#[derive(Debug)]
pub struct CompareSummary {
    pub report_schema: String,
    pub report_version: u32,
    pub left_label: String,
    pub right_label: String,
    pub left_files: usize,
    pub right_files: usize,
    pub same_path_same_meta: usize,
    pub same_path_changed: usize,
    pub left_only: usize,
    pub right_only: usize,
    pub cache_metrics: ReportCacheMetrics,
}

/// How two trees differ, and what a copy takes.
#[derive(Debug)]
pub struct BriefSummary {
    pub report_schema: String,
    pub report_version: u32,
    pub left_label: String,
    pub right_label: String,
    pub left_files: usize,
    pub right_files: usize,
    pub same_path_same_meta: usize,
    pub same_path_changed: usize,
    pub left_only: usize,
    pub right_only: usize,
    pub files_to_copy: usize,
    pub bytes_to_copy: u64,
    pub prior_bytes_per_second: Option<Double>,
    pub estimated_seconds: Option<u64>,
}

/// What a copy took.
#[derive(Clone, Copy, Debug, PartialEq, Eq, Structural)]
pub struct CopyRunSample {
    pub bytes_copied: u64,
    pub duration_ns: i64,
    pub copied_at: i64,
}

// ---------------------------------------------------------------------------
// The difference
// ---------------------------------------------------------------------------

/// The paths of both trees, in order.
pub open spec fn common_paths(left: Seq<FileRecord>, right: Seq<FileRecord>) -> Seq<Seq<char>> {
    sorted_paths(left).filter(|p: Seq<char>| has_path(right, p))
}

/// The paths of one tree alone, in order.
pub open spec fn lone_paths(left: Seq<FileRecord>, right: Seq<FileRecord>) -> Seq<Seq<char>> {
    sorted_paths(left).filter(|p: Seq<char>| !has_path(right, p))
}

/// The paths of both trees whose rows are the same, in order.
pub open spec fn same_paths(left: Seq<FileRecord>, right: Seq<FileRecord>) -> Seq<Seq<char>> {
    sorted_paths(left).filter(
        |p: Seq<char>| has_path(right, p) && same_meta(row_of(left, p), row_of(right, p)),
    )
}

/// The sum of the sizes of the rows of paths.
pub open spec fn bytes_at(rows: Seq<FileRecord>, paths: Seq<Seq<char>>) -> nat
    decreases paths.len(),
{
    if paths.len() == 0 {
        0
    } else {
        bytes_at(rows, paths.drop_last()) + row_of(rows, paths.last()).size as nat
    }
}

/// What is counted of the paths of the left tree.
struct Counts {
    same: usize,
    changed: usize,
    lone: usize,
    bytes: u64,
}

fn count_paths(left: &Vec<FileRecord>, right: &Vec<FileRecord>) -> (r: (Counts, usize, usize))
    requires
        bytes_at(left@, lone_paths(left@, right@)) <= u64::MAX,
    ensures
        r.0.same == same_paths(left@, right@).len(),
        r.0.changed == common_paths(left@, right@).len() - same_paths(left@, right@).len(),
        r.0.lone == lone_paths(left@, right@).len(),
        r.0.bytes == bytes_at(left@, lone_paths(left@, right@)),
        r.1 == sorted_paths(left@).len(),
        r.2 == sorted_paths(right@).len(),
{
    let left_index = index_rows(left);
    let right_index = index_rows(right);
    let ghost l = left@;
    let ghost d = right@;
    let ghost all = sorted_paths(l);
    let ghost alone = |p: Seq<char>| !has_path(d, p);
    let ghost both = |p: Seq<char>| has_path(d, p);
    let ghost alike = |p: Seq<char>| has_path(d, p) && same_meta(row_of(l, p), row_of(d, p));
    let mut r = Counts { same: 0, changed: 0, lone: 0, bytes: 0 };
    let mut i: usize = 0;
    proof {
        lemma_filter_start(all, alone);
        lemma_filter_start(all, both);
        lemma_filter_start(all, alike);
    }
    while i < left_index.len()
        invariant
            indexes(left_index, l),
            indexes(right_index, d),
            l == left@,
            d == right@,
            all == sorted_paths(l),
            i <= all.len(),
            alone == (|p: Seq<char>| !has_path(d, p)),
            both == (|p: Seq<char>| has_path(d, p)),
            alike == (|p: Seq<char>| has_path(d, p) && same_meta(row_of(l, p), row_of(d, p))),
            r.same == all.take(i as int).filter(alike).len(),
            r.changed == all.take(i as int).filter(both).len() - all.take(i as int).filter(
                alike,
            ).len(),
            r.lone == all.take(i as int).filter(alone).len(),
            r.same + r.changed + r.lone == i,
            r.bytes == bytes_at(l, all.take(i as int).filter(alone)),
            bytes_at(l, all.filter(alone)) <= u64::MAX,
        decreases all.len() - i,
    {
        let ghost before = all.take(i as int);
        let ghost after = all.take(i as int + 1);
        let ghost p = all[i as int];
        proof {
            lemma_filter_step(all, alone, i as int);
            lemma_filter_step(all, both, i as int);
            lemma_filter_step(all, alike, i as int);
            left_index.lemma_entries();
            assert(left_index@.contains_key(p));
            lemma_last_index(l, p);
            lemma_last_index(d, p);
        }
        let path = left_index.key_at(i);
        let at: usize = *left_index.value_at(i);
        assert(at == last_index(l, p)->0);
        match right_index.get(path.as_str()) {
            Some(there) => {
                let a = &left[at];
                let b = &right[*there];
                assert(*a == row_of(l, p));
                assert(*b == row_of(d, p));
                if a.is_unchanged(b) {
                    r.same = r.same + 1;
                } else {
                    r.changed = r.changed + 1;
                }
            },
            None => {
                proof {
                    assert(after.filter(alone) =~= before.filter(alone).push(p));
                    assert(after.filter(alone).drop_last() =~= before.filter(alone));
                    lemma_filter_prefix(all, alone, i as int + 1);
                    lemma_bytes_prefix(
                        l,
                        all.filter(alone),
                        after.filter(alone).len() as int,
                    );
                }
                r.lone = r.lone + 1;
                r.bytes = r.bytes + left[at].size;
            },
        }
        i = i + 1;
    }
    assert(all.take(i as int) =~= all);
    (r, left_index.len(), right_index.len())
}

proof fn lemma_bytes_prefix(rows: Seq<FileRecord>, paths: Seq<Seq<char>>, n: int)
    requires
        0 <= n <= paths.len(),
    ensures
        bytes_at(rows, paths.take(n)) <= bytes_at(rows, paths),
    decreases paths.len(),
{
    if n < paths.len() {
        lemma_bytes_prefix(rows, paths.drop_last(), n);
        assert(paths.drop_last().take(n) =~= paths.take(n));
    } else {
        assert(paths.take(n) =~= paths);
    }
}

/// Compares two trees: how they differ, and how many files and bytes the right
/// one lacks.
pub fn build_compare_and_copy_summary(
    left_rows: &Vec<FileRecord>,
    right_rows: &Vec<FileRecord>,
    left: &str,
    right: &str,
    cache_metrics: ReportCacheMetrics,
) -> (r: (CompareSummary, usize, u64))
    requires
        bytes_at(left_rows@, lone_paths(left_rows@, right_rows@)) <= u64::MAX,
    ensures
        r.0.report_schema@ == "nightindex.compare_summary"@,
        r.0.report_version == 1,
        r.0.left_label@ == left@,
        r.0.right_label@ == right@,
        r.0.left_files == sorted_paths(left_rows@).len(),
        r.0.right_files == sorted_paths(right_rows@).len(),
        r.0.same_path_same_meta == same_paths(left_rows@, right_rows@).len(),
        r.0.same_path_changed == common_paths(left_rows@, right_rows@).len() - same_paths(
            left_rows@,
            right_rows@,
        ).len(),
        r.0.left_only == lone_paths(left_rows@, right_rows@).len(),
        r.0.right_only == lone_paths(right_rows@, left_rows@).len(),
        r.0.cache_metrics == cache_metrics,
        r.1 == r.0.left_only,
        r.2 == bytes_at(left_rows@, lone_paths(left_rows@, right_rows@)),
{
    let (counts, left_files, right_files) = count_paths(left_rows, right_rows);
    proof {
        law_files_add_up(left_rows@, right_rows@);
        law_files_add_up(right_rows@, left_rows@);
        lemma_common_both_ways(left_rows@, right_rows@);
    }
    let right_only: usize = right_files - (left_files - counts.lone);
    let summary = CompareSummary {
        report_schema: from_chars(&to_chars("nightindex.compare_summary")),
        report_version: 1,
        left_label: from_chars(&to_chars(left)),
        right_label: from_chars(&to_chars(right)),
        left_files,
        right_files,
        same_path_same_meta: counts.same,
        same_path_changed: counts.changed,
        left_only: counts.lone,
        right_only,
        cache_metrics,
    };
    (summary, counts.lone, counts.bytes)
}

// ---------------------------------------------------------------------------
// Estimates
// ---------------------------------------------------------------------------

/// The later of two samples, the left one where both are of the same time.
pub open spec fn later(left: Option<CopyRunSample>, right: Option<CopyRunSample>) -> Option<
    CopyRunSample,
> {
    match (left, right) {
        (Some(l), Some(r)) => if l.copied_at >= r.copied_at {
            left
        } else {
            right
        },
        (Some(_), None) => left,
        _ => right,
    }
}

/// The later of two samples.
pub fn latest_sample(left: Option<CopyRunSample>, right: Option<CopyRunSample>) -> (r: Option<
    CopyRunSample,
>)
    ensures
        r == later(left, right),
{
    match (left, right) {
        (Some(l), Some(r)) => if l.copied_at >= r.copied_at {
            Some(l)
        } else {
            Some(r)
        },
        (Some(l), None) => Some(l),
        (None, r) => r,
    }
}

/// The seconds that bytes take at a rate, in double precision, at most what
/// 64 bits hold.
pub open spec fn seconds_at(bytes: u64, rate: Scaled) -> nat {
    if bytes == 0 {
        0
    } else {
        let n = whole(quotient(of_nat(bytes as nat), rate));
        if n <= u64::MAX {
            n
        } else {
            u64::MAX as nat
        }
    }
}

/// The rate of an earlier copy, and the seconds that bytes take at it; nothing
/// where there is no copy to go by.
pub fn estimate_copy_eta(sample: Option<&CopyRunSample>, bytes_to_copy: u64) -> (r: (
    Option<Double>,
    Option<u64>,
))
    ensures
        match sample {
            Some(s) => if has_rate(s.bytes_copied, s.duration_ns) {
                let rate = rate_of(s.bytes_copied, s.duration_ns);
                &&& r.0 is Some
                &&& is_printable(r.0->0)
                &&& r.0->0@ == rate
                &&& r.1 is Some
                &&& r.1->0 == seconds_at(bytes_to_copy, rate)
            } else {
                r == (None::<Double>, None::<u64>)
            },
            None => r == (None::<Double>, None::<u64>),
        },
{
    let sample = match sample {
        Some(s) => s,
        None => {
            return (None, None);
        },
    };
    match rate_from_elapsed(sample.bytes_copied, sample.duration_ns) {
        None => (None, None),
        Some(rate) => {
            let seconds: u64 = if bytes_to_copy == 0 {
                0
            } else {
                let amount = double_of(bytes_to_copy);
                to_whole(&divide(&amount, &rate), u64::MAX)
            };
            (Some(rate), Some(seconds))
        },
    }
}

/// Whether a rate can be written out.
pub open spec fn is_printable(x: Double) -> bool {
    x.wf() && -126 <= x.e <= 50
}

/// How two trees differ, and what a copy takes.
pub fn build_brief(
    summary: CompareSummary,
    files_to_copy: usize,
    bytes_to_copy: u64,
    left_sample: Option<CopyRunSample>,
    right_sample: Option<CopyRunSample>,
) -> (r: BriefSummary)
    ensures
        r.report_schema@ == "nightindex.brief"@,
        r.report_version == 1,
        r.left_label == summary.left_label,
        r.right_label == summary.right_label,
        r.left_files == summary.left_files,
        r.right_files == summary.right_files,
        r.same_path_same_meta == summary.same_path_same_meta,
        r.same_path_changed == summary.same_path_changed,
        r.left_only == summary.left_only,
        r.right_only == summary.right_only,
        r.files_to_copy == files_to_copy,
        r.bytes_to_copy == bytes_to_copy,
        match later(left_sample, right_sample) {
            Some(s) => if has_rate(s.bytes_copied, s.duration_ns) {
                let rate = rate_of(s.bytes_copied, s.duration_ns);
                &&& r.prior_bytes_per_second is Some
                &&& is_printable(r.prior_bytes_per_second->0)
                &&& r.prior_bytes_per_second->0@ == rate
                &&& r.estimated_seconds is Some
                &&& r.estimated_seconds->0 == seconds_at(bytes_to_copy, rate)
            } else {
                r.prior_bytes_per_second is None && r.estimated_seconds is None
            },
            None => r.prior_bytes_per_second is None && r.estimated_seconds is None,
        },
{
    let sample = latest_sample(left_sample, right_sample);
    let (prior_bytes_per_second, estimated_seconds) = match &sample {
        Some(s) => estimate_copy_eta(Some(s), bytes_to_copy),
        None => (None, None),
    };
    BriefSummary {
        report_schema: from_chars(&to_chars("nightindex.brief")),
        report_version: 1,
        left_label: summary.left_label,
        right_label: summary.right_label,
        left_files: summary.left_files,
        right_files: summary.right_files,
        same_path_same_meta: summary.same_path_same_meta,
        same_path_changed: summary.same_path_changed,
        left_only: summary.left_only,
        right_only: summary.right_only,
        files_to_copy,
        bytes_to_copy,
        prior_bytes_per_second,
        estimated_seconds,
    }
}

// ---------------------------------------------------------------------------
// Texts
// ---------------------------------------------------------------------------

fn push_number(cells: &mut Vec<Vec<char>>, n: u64)
    ensures
        char_texts(final(cells)@) == char_texts(old(cells)@).push(decimal(n as nat)),
{
    push_cell(cells, decimal_chars(n as u128));
}

/// The table of a comparison.
pub open spec fn summary_table(s: &CompareSummary) -> Seq<char> {
    "left_label,right_label,left_files,right_files,same_path_same_meta,same_path_changed,left_only,right_only\n"@
        + csv_row(
        seq![
            csv_field(s.left_label@),
            csv_field(s.right_label@),
            decimal(s.left_files as nat),
            decimal(s.right_files as nat),
            decimal(s.same_path_same_meta as nat),
            decimal(s.same_path_changed as nat),
            decimal(s.left_only as nat),
            decimal(s.right_only as nat),
        ],
    )
}

pub fn build_compare_summary_csv(summary: &CompareSummary) -> (r: String)
    ensures
        r@ == summary_table(summary),
{
    let mut out = to_chars(
        "left_label,right_label,left_files,right_files,same_path_same_meta,same_path_changed,left_only,right_only\n",
    );
    let mut cells: Vec<Vec<char>> = Vec::new();
    assert(char_texts(cells@) =~= Seq::empty());
    push_field(&mut cells, summary.left_label.as_str());
    push_field(&mut cells, summary.right_label.as_str());
    push_number(&mut cells, summary.left_files as u64);
    push_number(&mut cells, summary.right_files as u64);
    push_number(&mut cells, summary.same_path_same_meta as u64);
    push_number(&mut cells, summary.same_path_changed as u64);
    push_number(&mut cells, summary.left_only as u64);
    push_number(&mut cells, summary.right_only as u64);
    assert(char_texts(cells@) =~= seq![
        csv_field(summary.left_label@),
        csv_field(summary.right_label@),
        decimal(summary.left_files as nat),
        decimal(summary.right_files as nat),
        decimal(summary.same_path_same_meta as nat),
        decimal(summary.same_path_changed as nat),
        decimal(summary.left_only as nat),
        decimal(summary.right_only as nat),
    ]);
    push_row(&mut out, &cells);
    from_chars(&out)
}

/// A rate in a table, with six digits behind the point.
pub open spec fn rate_cell(rate: Option<Double>) -> Seq<char> {
    match rate {
        Some(x) => fixed(in_parts(x@, 1_000_000), 6),
        None => Seq::empty(),
    }
}

pub open spec fn seconds_cell(seconds: Option<u64>) -> Seq<char> {
    match seconds {
        Some(n) => decimal(n as nat),
        None => Seq::empty(),
    }
}

/// The table of a brief.
pub open spec fn brief_table(s: &BriefSummary) -> Seq<char> {
    "left_label,right_label,left_files,right_files,same_path_same_meta,same_path_changed,left_only,right_only,files_to_copy,bytes_to_copy,prior_bytes_per_second,estimated_seconds\n"@
        + csv_row(
        seq![
            csv_field(s.left_label@),
            csv_field(s.right_label@),
            decimal(s.left_files as nat),
            decimal(s.right_files as nat),
            decimal(s.same_path_same_meta as nat),
            decimal(s.same_path_changed as nat),
            decimal(s.left_only as nat),
            decimal(s.right_only as nat),
            decimal(s.files_to_copy as nat),
            decimal(s.bytes_to_copy as nat),
            rate_cell(s.prior_bytes_per_second),
            seconds_cell(s.estimated_seconds),
        ],
    )
}

pub fn build_brief_csv(summary: &BriefSummary) -> (r: String)
    requires
        summary.prior_bytes_per_second matches Some(x) ==> is_printable(x),
    ensures
        r@ == brief_table(summary),
{
    let mut out = to_chars(
        "left_label,right_label,left_files,right_files,same_path_same_meta,same_path_changed,left_only,right_only,files_to_copy,bytes_to_copy,prior_bytes_per_second,estimated_seconds\n",
    );
    let mut cells: Vec<Vec<char>> = Vec::new();
    assert(char_texts(cells@) =~= Seq::empty());
    push_field(&mut cells, summary.left_label.as_str());
    push_field(&mut cells, summary.right_label.as_str());
    push_number(&mut cells, summary.left_files as u64);
    push_number(&mut cells, summary.right_files as u64);
    push_number(&mut cells, summary.same_path_same_meta as u64);
    push_number(&mut cells, summary.same_path_changed as u64);
    push_number(&mut cells, summary.left_only as u64);
    push_number(&mut cells, summary.right_only as u64);
    push_number(&mut cells, summary.files_to_copy as u64);
    push_number(&mut cells, summary.bytes_to_copy);
    match &summary.prior_bytes_per_second {
        Some(x) => push_cell(&mut cells, fixed_chars(to_parts(x, 1_000_000), 6)),
        None => {
            let nothing: Vec<char> = Vec::new();
            assert(nothing@ =~= Seq::empty());
            push_cell(&mut cells, nothing)
        },
    }
    match summary.estimated_seconds {
        Some(n) => push_number(&mut cells, n),
        None => {
            let nothing: Vec<char> = Vec::new();
            assert(nothing@ =~= Seq::empty());
            push_cell(&mut cells, nothing)
        },
    }
    assert(char_texts(cells@) =~= seq![
        csv_field(summary.left_label@),
        csv_field(summary.right_label@),
        decimal(summary.left_files as nat),
        decimal(summary.right_files as nat),
        decimal(summary.same_path_same_meta as nat),
        decimal(summary.same_path_changed as nat),
        decimal(summary.left_only as nat),
        decimal(summary.right_only as nat),
        decimal(summary.files_to_copy as nat),
        decimal(summary.bytes_to_copy as nat),
        rate_cell(summary.prior_bytes_per_second),
        seconds_cell(summary.estimated_seconds),
    ]);
    push_row(&mut out, &cells);
    from_chars(&out)
}

/// What is told of a brief.
pub open spec fn brief_line(s: &BriefSummary) -> Seq<char> {
    "[brief] summary: copy "@ + decimal(s.files_to_copy as nat) + " files / "@ + decimal(
        s.bytes_to_copy as nat,
    ) + " bytes; "@ + decimal(s.same_path_same_meta as nat) + " same, "@ + decimal(
        s.same_path_changed as nat,
    ) + " changed, "@ + decimal(s.left_only as nat) + " left-only, "@ + decimal(
        s.right_only as nat,
    ) + " right-only"@ + match s.estimated_seconds {
        Some(n) => ", ETA ~"@ + decimal(n as nat) + "s"@,
        None => Seq::empty(),
    }
}

/// What is told of a brief.
pub fn tell_brief(s: &BriefSummary) -> (r: String)
    ensures
        r@ == brief_line(s),
{
    let mut out = to_chars("[brief] summary: copy ");
    extend(&mut out, &decimal_chars(s.files_to_copy as u128));
    extend_str(&mut out, " files / ");
    extend(&mut out, &decimal_chars(s.bytes_to_copy as u128));
    extend_str(&mut out, " bytes; ");
    extend(&mut out, &decimal_chars(s.same_path_same_meta as u128));
    extend_str(&mut out, " same, ");
    extend(&mut out, &decimal_chars(s.same_path_changed as u128));
    extend_str(&mut out, " changed, ");
    extend(&mut out, &decimal_chars(s.left_only as u128));
    extend_str(&mut out, " left-only, ");
    extend(&mut out, &decimal_chars(s.right_only as u128));
    extend_str(&mut out, " right-only");
    let ghost lead = out@;
    match s.estimated_seconds {
        Some(n) => {
            extend_str(&mut out, ", ETA ~");
            extend(&mut out, &decimal_chars(n as u128));
            extend_str(&mut out, "s");
            assert(out@ =~= lead + (", ETA ~"@ + decimal(n as nat) + "s"@));
        },
        None => {
            assert(out@ =~= lead + Seq::<char>::empty());
        },
    }
    from_chars(&out)
}

// ---------------------------------------------------------------------------
// Laws
// ---------------------------------------------------------------------------

/// Every path of a tree is in the other one too, or in it alone; and a path of
/// both is the same there or has changed.
pub proof fn law_files_add_up(left: Seq<FileRecord>, right: Seq<FileRecord>)
    ensures
        common_paths(left, right).len() + lone_paths(left, right).len() == sorted_paths(left).len(),
        same_paths(left, right).len() <= common_paths(left, right).len(),
{
    let alone = |p: Seq<char>| !has_path(right, p);
    let both = |p: Seq<char>| has_path(right, p);
    let alike = |p: Seq<char>| has_path(right, p) && same_meta(row_of(left, p), row_of(right, p));
    lemma_parts(sorted_paths(left), both, alone, alike);
}

proof fn lemma_parts(
    s: Seq<Seq<char>>,
    both: spec_fn(Seq<char>) -> bool,
    alone: spec_fn(Seq<char>) -> bool,
    alike: spec_fn(Seq<char>) -> bool,
)
    requires
        forall|p: Seq<char>| #[trigger] both(p) == !alone(p),
        forall|p: Seq<char>| #[trigger] alike(p) ==> both(p),
    ensures
        s.filter(both).len() + s.filter(alone).len() == s.len(),
        s.filter(alike).len() <= s.filter(both).len(),
    decreases s.len(),
{
    reveal(Seq::filter);
    if s.len() > 0 {
        lemma_parts(s.drop_last(), both, alone, alike);
        assert(both(s.last()) == !alone(s.last()));
        assert(alike(s.last()) ==> both(s.last()));
    }
}

/// The paths of both trees are the same from either side.
proof fn lemma_common_both_ways(left: Seq<FileRecord>, right: Seq<FileRecord>)
    ensures
        common_paths(left, right) == common_paths(right, left),
{
    lemma_common_contains(left, right);
    lemma_common_contains(right, left);
    lemma_ascending_unique(common_paths(left, right), common_paths(right, left));
}

proof fn lemma_common_contains(left: Seq<FileRecord>, right: Seq<FileRecord>)
    ensures
        ascending(common_paths(left, right)),
        forall|p: Seq<char>|
            #[trigger] common_paths(left, right).contains(p) <==> has_path(left, p) && has_path(
                right,
                p,
            ),
{
    let both = |p: Seq<char>| has_path(right, p);
    let all = sorted_paths(left);
    lemma_sorted_set(paths_of(left));
    lemma_filter_ascending(all, both);
    assert forall|p: Seq<char>| #[trigger] common_paths(left, right).contains(p) <==> has_path(
        left,
        p,
    ) && has_path(right, p) by {
        lemma_last_index(left, p);
        if common_paths(left, right).contains(p) {
            all.lemma_filter_pred(both, all.filter(both).index_of(p));
        }
        if has_path(left, p) && has_path(right, p) {
            assert(all.contains(p));
            all.lemma_filter_contains(both, all.index_of(p));
        }
    }
}

/// Changing sides exchanges what each tree has alone and keeps what is the
/// same and what has changed.
pub proof fn law_comparison_symmetric(left: Seq<FileRecord>, right: Seq<FileRecord>)
    ensures
        common_paths(left, right) == common_paths(right, left),
        same_paths(left, right) == same_paths(right, left),
{
    lemma_common_both_ways(left, right);
    let there = |p: Seq<char>| same_meta(row_of(left, p), row_of(right, p));
    let back = |p: Seq<char>| same_meta(row_of(right, p), row_of(left, p));
    lemma_filter_twice(
        sorted_paths(left),
        |p: Seq<char>| has_path(right, p),
        there,
        |p: Seq<char>| has_path(right, p) && same_meta(row_of(left, p), row_of(right, p)),
    );
    lemma_filter_twice(
        sorted_paths(right),
        |p: Seq<char>| has_path(left, p),
        back,
        |p: Seq<char>| has_path(left, p) && same_meta(row_of(right, p), row_of(left, p)),
    );
    assert(there =~= back);
}

/// A tree does not differ from itself.
pub proof fn law_same_as_itself(rows: Seq<FileRecord>)
    ensures
        same_paths(rows, rows) == sorted_paths(rows),
        lone_paths(rows, rows) == Seq::<Seq<char>>::empty(),
{
    let all = sorted_paths(rows);
    lemma_sorted_set(paths_of(rows));
    let alike = |p: Seq<char>| has_path(rows, p) && same_meta(row_of(rows, p), row_of(rows, p));
    let alone = |p: Seq<char>| !has_path(rows, p);
    assert forall|i: int| 0 <= i < all.len() implies alike(#[trigger] all[i]) && !alone(all[i]) by {
        assert(all.contains(all[i]));
        lemma_last_index(rows, all[i]);
    }
    lemma_filter_all(all, alike);
    lemma_filter_none(all, alone);
}

/// What a brief tells to be missing is what a plan without a policy copies of
/// paths that the right tree lacks. The rest of the plan is what has changed.
pub proof fn law_brief_tells_the_plan(left: Seq<FileRecord>, right: Seq<FileRecord>)
    ensures
        ({
            let items = wanted_items(left, right, None);
            let missing = items.filter(|item: CopyPlanItem| !has_path(right, item.rel_path@));
            &&& missing.len() == lone_paths(left, right).len()
            &&& total_size(missing) == bytes_at(left, lone_paths(left, right))
            &&& items.len() - missing.len() == common_paths(left, right).len() - same_paths(
                left,
                right,
            ).len()
        }),
{
    let all = sorted_paths(left);
    let alone = |p: Seq<char>| !has_path(right, p);
    let both = |p: Seq<char>| has_path(right, p);
    let alike = |p: Seq<char>| has_path(right, p) && same_meta(row_of(left, p), row_of(right, p));
    let wanted = |p: Seq<char>| to_copy(left, right, None, p);
    let make = |p: Seq<char>| item_of(row_of(left, p));
    let lacks = |item: CopyPlanItem| !has_path(right, item.rel_path@);
    let paths = all.filter(wanted);
    lemma_sorted_set(paths_of(left));
    assert forall|i: int| 0 <= i < paths.len() implies lacks(make(#[trigger] paths[i])) == alone(
        paths[i],
    ) by {
        assert(paths.contains(paths[i]));
        all.lemma_filter_contains_rev(wanted, paths[i]);
        lemma_last_index(left, paths[i]);
    }
    lemma_filter_made(paths, make, lacks, alone);
    lemma_filter_twice(all, wanted, alone, alone);
    lemma_sizes(left, lone_paths(left, right));
    lemma_wanted_counts(all, wanted, alone, both, alike);
}

proof fn lemma_wanted_counts(
    s: Seq<Seq<char>>,
    wanted: spec_fn(Seq<char>) -> bool,
    alone: spec_fn(Seq<char>) -> bool,
    both: spec_fn(Seq<char>) -> bool,
    alike: spec_fn(Seq<char>) -> bool,
)
    requires
        forall|p: Seq<char>| #[trigger] wanted(p) == (alone(p) || both(p) && !alike(p)),
        forall|p: Seq<char>| #[trigger] alone(p) == !both(p),
        forall|p: Seq<char>| #[trigger] alike(p) ==> both(p),
    ensures
        s.filter(wanted).len() == s.filter(alone).len() + s.filter(both).len() - s.filter(
            alike,
        ).len(),
    decreases s.len(),
{
    reveal(Seq::filter);
    if s.len() > 0 {
        lemma_wanted_counts(s.drop_last(), wanted, alone, both, alike);
        let p = s.last();
        assert(wanted(p) == (alone(p) || both(p) && !alike(p)));
        assert(alone(p) == !both(p));
    }
}

proof fn lemma_sizes(rows: Seq<FileRecord>, paths: Seq<Seq<char>>)
    ensures
        total_size(paths.map_values(|p: Seq<char>| item_of(row_of(rows, p)))) == bytes_at(
            rows,
            paths,
        ),
    decreases paths.len(),
{
    let f = |p: Seq<char>| item_of(row_of(rows, p));
    if paths.len() > 0 {
        lemma_sizes(rows, paths.drop_last());
        assert(paths.map_values(f).drop_last() =~= paths.drop_last().map_values(f));
    }
}

} // verus!
