//! The members of the archives of two trees: what each has alone, and what to
//! do about it.

use crate::csv::{csv_field, csv_row, push_cell, push_field, push_row};
use crate::extract_check::{
    labelled, pick, push_metric, push_texts, text_rows, ExtractCheckEntry,
};
use crate::filter::{lemma_filter_none, lemma_filter_start, lemma_filter_step};
use crate::keyed::{in_both, index_last, items_at, lemma_last_at, only_in, places_only_in};
use crate::number::{decimal, decimal_chars, decimal_int, decimal_int_chars};
use crate::order::{
    in_order, lemma_pair_asymmetric, lemma_pair_negatively_transitive, pair_before, pair_lt, sort,
    Ranked,
};
use crate::text::{
    char_texts, concat3, copy_opt, extend, extend_str, from_chars, opt_text, texts, to_chars,
};
use crate::textmap::{lemma_sorted_set, sorted_set, TextSet};
use vstd::prelude::*;

verus! {

/// A member that one tree has alone.
#[derive(Debug)]
pub struct ArchiveMemberDiffEntry {
    pub rel_path: String,
    pub virtual_member: String,
    pub archive_family: Option<String>,
    pub payload_signature: Option<String>,
    pub archive_depth: usize,
    pub size: u64,
    pub mtime_ns: i64,
    pub fast_hash: Option<String>,
}

#[derive(Debug)]
pub struct ArchiveMemberDiffReport {
    pub report_schema: String,
    pub report_version: u32,
    pub left_label: String,
    pub right_label: String,
    pub left_members: usize,
    pub right_members: usize,
    pub exact_member_matches: usize,
    pub payload_family_matches: usize,
    pub left_only_count: usize,
    pub right_only_count: usize,
    pub left_only: Vec<ArchiveMemberDiffEntry>,
    pub right_only: Vec<ArchiveMemberDiffEntry>,
}

/// What to do about a member.
#[derive(Debug)]
pub struct ArchiveMemberPlanRow {
    pub row_schema: String,
    pub row_version: u32,
    pub action_class: String,
    pub side: String,
    pub virtual_member: String,
    pub rel_path: String,
    pub archive_family: Option<String>,
    pub payload_signature: Option<String>,
    pub archive_depth: usize,
    pub size: u64,
    pub mtime_ns: i64,
    pub fast_hash: Option<String>,
    pub signal: String,
}

// ---------------------------------------------------------------------------
// The difference
// ---------------------------------------------------------------------------

pub open spec fn members(v: Seq<ExtractCheckEntry>) -> Seq<Seq<char>> {
    v.map_values(|e: ExtractCheckEntry| e.virtual_member@)
}

pub open spec fn member_of(e: ExtractCheckEntry) -> ArchiveMemberDiffEntry {
    ArchiveMemberDiffEntry {
        rel_path: e.path,
        virtual_member: e.virtual_member,
        archive_family: e.archive_family,
        payload_signature: e.payload_signature,
        archive_depth: e.archive_depth,
        size: e.size,
        mtime_ns: e.mtime_ns,
        fast_hash: e.fast_hash,
    }
}

/// The members that one tree has alone, in their order.
pub open spec fn only_members(a: Seq<ExtractCheckEntry>, b: Seq<ExtractCheckEntry>) -> Seq<
    ArchiveMemberDiffEntry,
> {
    items_at(a, members(a), only_in(members(a), members(b))).map_values(
        |e: ExtractCheckEntry| member_of(e),
    )
}

/// The family and the signature of what a member holds, where both are known.
pub open spec fn payload_key(e: ArchiveMemberDiffEntry) -> Option<Seq<char>> {
    match (e.archive_family, e.payload_signature) {
        (Some(family), Some(signature)) => Some(family@ + "|"@ + signature@),
        _ => None,
    }
}

/// Whether one of the members has this key.
pub open spec fn has_key(v: Seq<ArchiveMemberDiffEntry>, key: Seq<char>) -> bool {
    exists|i: int| 0 <= i < v.len() && payload_key(#[trigger] v[i]) == Some(key)
}

/// Whether a member holds what one of the others holds, by its key.
pub open spec fn is_shared(e: ArchiveMemberDiffEntry, others: Seq<ArchiveMemberDiffEntry>) -> bool {
    match payload_key(e) {
        Some(key) => has_key(others, key),
        None => false,
    }
}

fn member_list(v: &Vec<ExtractCheckEntry>) -> (r: Vec<String>)
    ensures
        texts(r@) == members(v@),
{
    let mut r: Vec<String> = Vec::new();
    let mut i: usize = 0;
    while i < v.len()
        invariant
            i <= v@.len(),
            r@.len() == i,
            forall|k: int| 0 <= k < i ==> (#[trigger] r@[k])@ == v@[k].virtual_member@,
        decreases v@.len() - i,
    {
        r.push(v[i].virtual_member.clone());
        i = i + 1;
    }
    assert(texts(r@) =~= members(v@));
    r
}

fn to_members(v: &Vec<ExtractCheckEntry>) -> (r: Vec<ArchiveMemberDiffEntry>)
    ensures
        r@ == v@.map_values(|e: ExtractCheckEntry| member_of(e)),
{
    let mut r: Vec<ArchiveMemberDiffEntry> = Vec::new();
    let mut i: usize = 0;
    while i < v.len()
        invariant
            i <= v@.len(),
            r@.len() == i,
            forall|k: int| 0 <= k < i ==> #[trigger] r@[k] == member_of(v@[k]),
        decreases v@.len() - i,
    {
        let e = &v[i];
        r.push(
            ArchiveMemberDiffEntry {
                rel_path: e.path.clone(),
                virtual_member: e.virtual_member.clone(),
                archive_family: copy_opt(&e.archive_family),
                payload_signature: copy_opt(&e.payload_signature),
                archive_depth: e.archive_depth,
                size: e.size,
                mtime_ns: e.mtime_ns,
                fast_hash: copy_opt(&e.fast_hash),
            },
        );
        i = i + 1;
    }
    assert(r@ =~= v@.map_values(|e: ExtractCheckEntry| member_of(e)));
    r
}

fn find_key(e: &ArchiveMemberDiffEntry) -> (r: Option<String>)
    ensures
        opt_text(r) == payload_key(*e),
{
    match (&e.archive_family, &e.payload_signature) {
        (Some(family), Some(signature)) => Some(concat3(family.as_str(), "|", signature.as_str())),
        _ => None,
    }
}

/// The keys of the members.
fn key_set(v: &Vec<ArchiveMemberDiffEntry>) -> (r: TextSet)
    ensures
        r.wf(),
        forall|k: Seq<char>| #[trigger] r@.contains(k) <==> has_key(v@, k),
{
    let mut r = TextSet::new();
    let mut i: usize = 0;
    while i < v.len()
        invariant
            i <= v@.len(),
            r.wf(),
            forall|k: Seq<char>| #[trigger] r@.contains(k) <==> has_key(v@.take(i as int), k),
        decreases v@.len() - i,
    {
        let ghost before = r@;
        if let Some(key) = find_key(&v[i]) {
            r.insert(key);
        }
        proof {
            let old_v = v@.take(i as int);
            let new_v = v@.take(i as int + 1);
            assert forall|k: Seq<char>| #[trigger] r@.contains(k) <==> has_key(new_v, k) by {
                assert(before.contains(k) <==> has_key(old_v, k));
                if has_key(old_v, k) {
                    let j = choose|j: int|
                        0 <= j < old_v.len() && payload_key(#[trigger] old_v[j]) == Some(k);
                    assert(new_v[j] == old_v[j]);
                }
                assert(new_v[i as int] == v@[i as int]);
                if has_key(new_v, k) {
                    let j = choose|j: int|
                        0 <= j < new_v.len() && payload_key(#[trigger] new_v[j]) == Some(k);
                    if j < i {
                        assert(old_v[j] == new_v[j]);
                    }
                }
            }
        }
        i = i + 1;
    }
    assert(v@.take(i as int) =~= v@);
    r
}

fn shared_test(
    e: &ArchiveMemberDiffEntry,
    keys: &TextSet,
    Ghost(others): Ghost<Seq<ArchiveMemberDiffEntry>>,
) -> (r: bool)
    requires
        keys.wf(),
        forall|k: Seq<char>| #[trigger] keys@.contains(k) <==> has_key(others, k),
    ensures
        r == is_shared(*e, others),
{
    match find_key(e) {
        Some(key) => keys.contains(key.as_str()),
        None => false,
    }
}

/// The members that are shared.
pub open spec fn shared_members(
    v: Seq<ArchiveMemberDiffEntry>,
    others: Seq<ArchiveMemberDiffEntry>,
) -> Seq<ArchiveMemberDiffEntry> {
    v.filter(|e: ArchiveMemberDiffEntry| is_shared(e, others))
}

fn count_shared(v: &Vec<ArchiveMemberDiffEntry>, others: &Vec<ArchiveMemberDiffEntry>) -> (r: usize)
    ensures
        r == shared_members(v@, others@).len(),
{
    let keys = key_set(others);
    let ghost keep = |e: ArchiveMemberDiffEntry| is_shared(e, others@);
    let mut r: usize = 0;
    let mut i: usize = 0;
    proof {
        lemma_filter_start(v@, keep);
    }
    while i < v.len()
        invariant
            i <= v@.len(),
            r <= i,
            keys.wf(),
            forall|k: Seq<char>| #[trigger] keys@.contains(k) <==> has_key(others@, k),
            keep == (|e: ArchiveMemberDiffEntry| is_shared(e, others@)),
            r == v@.take(i as int).filter(keep).len(),
        decreases v@.len() - i,
    {
        proof {
            lemma_filter_step(v@, keep, i as int);
        }
        if shared_test(&v[i], &keys, Ghost(others@)) {
            r = r + 1;
        }
        i = i + 1;
    }
    assert(v@.take(i as int) =~= v@);
    r
}

/// Compares the members of the archives of two trees.
pub fn build_archive_member_diff_report(
    left: &Vec<ExtractCheckEntry>,
    right: &Vec<ExtractCheckEntry>,
    left_label: &str,
    right_label: &str,
) -> (r: ArchiveMemberDiffReport)
    ensures
        r.report_schema@ == "nightindex.archive_member_diff"@,
        r.report_version == 1,
        r.left_label@ == left_label@,
        r.right_label@ == right_label@,
        r.left_members == sorted_set(members(left@)).len(),
        r.right_members == sorted_set(members(right@)).len(),
        r.exact_member_matches == in_both(members(left@), members(right@)).len(),
        r.left_only@ == only_members(left@, right@),
        r.right_only@ == only_members(right@, left@),
        r.left_only_count == r.left_only@.len(),
        r.right_only_count == r.right_only@.len(),
        r.payload_family_matches == shared_members(r.right_only@, r.left_only@).len(),
{
    let ghost lm = members(left@);
    let ghost rm = members(right@);
    let left_index = index_last(&member_list(left));
    let right_index = index_last(&member_list(right));
    let left_at = places_only_in(&left_index, &right_index, Ghost(lm), Ghost(rm));
    let right_at = places_only_in(&right_index, &left_index, Ghost(rm), Ghost(lm));
    let a = pick(left, &left_at);
    let b = pick(right, &right_at);
    proof {
        assert(a@ =~= items_at(left@, lm, only_in(lm, rm)));
        assert(b@ =~= items_at(right@, rm, only_in(rm, lm)));
    }
    let exact: usize = left_index.len() - left_at.len();
    let left_only = to_members(&a);
    let right_only = to_members(&b);
    let shared = count_shared(&right_only, &left_only);
    ArchiveMemberDiffReport {
        report_schema: from_chars(&to_chars("nightindex.archive_member_diff")),
        report_version: 1,
        left_label: from_chars(&to_chars(left_label)),
        right_label: from_chars(&to_chars(right_label)),
        left_members: left_index.len(),
        right_members: right_index.len(),
        exact_member_matches: exact,
        payload_family_matches: shared,
        left_only_count: left_only.len(),
        right_only_count: right_only.len(),
        left_only,
        right_only,
    }
}

/// What is told of a difference.
pub open spec fn diff_line(r: &ArchiveMemberDiffReport) -> Seq<char> {
    "[archive-member-diff] summary: "@ + decimal(r.exact_member_matches as nat) + " exact, "@
        + decimal(r.payload_family_matches as nat) + " payload-family, "@ + decimal(
        r.left_only_count as nat,
    ) + " left-only, "@ + decimal(r.right_only_count as nat) + " right-only"@
}

/// What is told of a difference.
pub fn tell_member_diff(report: &ArchiveMemberDiffReport) -> (r: String)
    ensures
        r@ == diff_line(report),
{
    let mut out = to_chars("[archive-member-diff] summary: ");
    extend(&mut out, &decimal_chars(report.exact_member_matches as u128));
    extend_str(&mut out, " exact, ");
    extend(&mut out, &decimal_chars(report.payload_family_matches as u128));
    extend_str(&mut out, " payload-family, ");
    extend(&mut out, &decimal_chars(report.left_only_count as u128));
    extend_str(&mut out, " left-only, ");
    extend(&mut out, &decimal_chars(report.right_only_count as u128));
    extend_str(&mut out, " right-only");
    from_chars(&out)
}

/// The members of entries that one tree has alone.
pub open spec fn lone_members(v: Seq<ArchiveMemberDiffEntry>) -> Seq<Seq<char>> {
    v.map_values(|e: ArchiveMemberDiffEntry| e.virtual_member@)
}

fn lone_list(v: &Vec<ArchiveMemberDiffEntry>) -> (r: Vec<String>)
    ensures
        texts(r@) == lone_members(v@),
{
    let mut r: Vec<String> = Vec::new();
    let mut i: usize = 0;
    while i < v.len()
        invariant
            i <= v@.len(),
            r@.len() == i,
            forall|k: int| 0 <= k < i ==> (#[trigger] r@[k])@ == v@[k].virtual_member@,
        decreases v@.len() - i,
    {
        r.push(v[i].virtual_member.clone());
        i = i + 1;
    }
    assert(texts(r@) =~= lone_members(v@));
    r
}

/// The table of a difference.
pub open spec fn diff_table(report: &ArchiveMemberDiffReport) -> Seq<char> {
    let l = report.left_label@;
    let r = report.right_label@;
    let count = |metric: Seq<char>, n: usize|
        labelled("summary"@, l, r, seq![metric, decimal(n as nat)]);
    "section,left_label,right_label,metric,value\n"@ + count("left_members"@, report.left_members)
        + count("right_members"@, report.right_members) + count(
        "exact_member_matches"@,
        report.exact_member_matches,
    ) + count("payload_family_matches"@, report.payload_family_matches) + text_rows(
        "left_only"@,
        l,
        r,
        "virtual_member"@,
        lone_members(report.left_only@),
    ) + text_rows("right_only"@, l, r, "virtual_member"@, lone_members(report.right_only@))
}

pub fn build_archive_member_diff_csv(report: &ArchiveMemberDiffReport) -> (r: String)
    ensures
        r@ == diff_table(report),
{
    let left = report.left_label.as_str();
    let right = report.right_label.as_str();
    let mut out = to_chars("section,left_label,right_label,metric,value\n");
    push_metric(&mut out, "summary", left, right, "left_members", report.left_members as u128);
    push_metric(&mut out, "summary", left, right, "right_members", report.right_members as u128);
    push_metric(
        &mut out,
        "summary",
        left,
        right,
        "exact_member_matches",
        report.exact_member_matches as u128,
    );
    push_metric(
        &mut out,
        "summary",
        left,
        right,
        "payload_family_matches",
        report.payload_family_matches as u128,
    );
    push_texts(&mut out, "left_only", left, right, "virtual_member", &lone_list(&report.left_only));
    push_texts(
        &mut out,
        "right_only",
        left,
        right,
        "virtual_member",
        &lone_list(&report.right_only),
    );
    from_chars(&out)
}

// ---------------------------------------------------------------------------
// The plan
// ---------------------------------------------------------------------------

/// What to do about a member, and why: what both sides hold under other names
/// is reviewed, what one side holds alone is copied, and what is not known is
/// reviewed.
pub open spec fn action_class(left: bool, shared: bool, known: bool) -> (Seq<char>, Seq<char>) {
    if shared {
        ("review_payload_family_match"@, "payload_family_match"@)
    } else if known && left {
        ("copy_left_only"@, "left_only"@)
    } else if known {
        ("copy_right_only"@, "right_only"@)
    } else if left {
        ("review_conflict"@, "left_only_no_payload_signature"@)
    } else {
        ("review_conflict"@, "right_only_no_payload_signature"@)
    }
}

/// Whether this is the row of a member.
pub open spec fn is_row_of(
    row: ArchiveMemberPlanRow,
    e: ArchiveMemberDiffEntry,
    left: bool,
    others: Seq<ArchiveMemberDiffEntry>,
) -> bool {
    let class = action_class(left, is_shared(e, others), e.payload_signature is Some);
    &&& row.row_schema@ == "nightindex.archive_member_plan.row"@
    &&& row.row_version == 1
    &&& row.action_class@ == class.0
    &&& row.signal@ == class.1
    &&& row.side@ == if left {
        "left"@
    } else {
        "right"@
    }
    &&& row.virtual_member@ == e.virtual_member@
    &&& row.rel_path@ == e.rel_path@
    &&& opt_text(row.archive_family) == opt_text(e.archive_family)
    &&& opt_text(row.payload_signature) == opt_text(e.payload_signature)
    &&& row.archive_depth == e.archive_depth
    &&& row.size == e.size
    &&& row.mtime_ns == e.mtime_ns
    &&& opt_text(row.fast_hash) == opt_text(e.fast_hash)
}

/// Whether these are the rows of members, one for one.
pub open spec fn are_rows_of(
    rows: Seq<ArchiveMemberPlanRow>,
    v: Seq<ArchiveMemberDiffEntry>,
    left: bool,
    others: Seq<ArchiveMemberDiffEntry>,
) -> bool {
    &&& rows.len() == v.len()
    &&& forall|i: int| 0 <= i < v.len() ==> is_row_of(#[trigger] rows[i], v[i], left, others)
}

fn rows_of(v: &Vec<ArchiveMemberDiffEntry>, left: bool, others: &Vec<ArchiveMemberDiffEntry>) -> (r:
    Vec<ArchiveMemberPlanRow>)
    ensures
        are_rows_of(r@, v@, left, others@),
{
    let keys = key_set(others);
    let mut r: Vec<ArchiveMemberPlanRow> = Vec::new();
    let mut i: usize = 0;
    while i < v.len()
        invariant
            i <= v@.len(),
            r@.len() == i,
            keys.wf(),
            forall|k: Seq<char>| #[trigger] keys@.contains(k) <==> has_key(others@, k),
            forall|k: int| 0 <= k < i ==> is_row_of(#[trigger] r@[k], v@[k], left, others@),
        decreases v@.len() - i,
    {
        let e = &v[i];
        let shared = shared_test(e, &keys, Ghost(others@));
        let (class, signal): (&str, &str) = if shared {
            ("review_payload_family_match", "payload_family_match")
        } else if e.payload_signature.is_some() {
            if left {
                ("copy_left_only", "left_only")
            } else {
                ("copy_right_only", "right_only")
            }
        } else if left {
            ("review_conflict", "left_only_no_payload_signature")
        } else {
            ("review_conflict", "right_only_no_payload_signature")
        };
        r.push(
            ArchiveMemberPlanRow {
                row_schema: from_chars(&to_chars("nightindex.archive_member_plan.row")),
                row_version: 1,
                action_class: from_chars(&to_chars(class)),
                side: from_chars(&to_chars(if left { "left" } else { "right" })),
                virtual_member: e.virtual_member.clone(),
                rel_path: e.rel_path.clone(),
                archive_family: copy_opt(&e.archive_family),
                payload_signature: copy_opt(&e.payload_signature),
                archive_depth: e.archive_depth,
                size: e.size,
                mtime_ns: e.mtime_ns,
                fast_hash: copy_opt(&e.fast_hash),
                signal: from_chars(&to_chars(signal)),
            },
        );
        i = i + 1;
    }
    r
}

impl Ranked for ArchiveMemberPlanRow {
    open spec fn is_ranked(&self) -> bool {
        true
    }

    /// By member, and by side where the members are the same.
    open spec fn before(&self, other: &Self) -> bool {
        pair_lt((self.virtual_member@, self.side@), (other.virtual_member@, other.side@))
    }

    proof fn lemma_asymmetric(a: &Self, b: &Self) {
        lemma_pair_asymmetric((a.virtual_member@, a.side@), (b.virtual_member@, b.side@));
    }

    proof fn lemma_negatively_transitive(a: &Self, b: &Self, c: &Self) {
        lemma_pair_negatively_transitive(
            (a.virtual_member@, a.side@),
            (b.virtual_member@, b.side@),
            (c.virtual_member@, c.side@),
        );
    }

    fn is_before(&self, other: &Self) -> (r: bool) {
        pair_before(
            self.virtual_member.as_str(),
            self.side.as_str(),
            other.virtual_member.as_str(),
            other.side.as_str(),
        )
    }
}

/// Whether these are the rows of a difference, in order.
pub open spec fn plans(rows: Seq<ArchiveMemberPlanRow>, report: &ArchiveMemberDiffReport) -> bool {
    &&& in_order(rows)
    &&& exists|l: Seq<ArchiveMemberPlanRow>, r: Seq<ArchiveMemberPlanRow>|
        #![trigger l + r]
        are_rows_of(l, report.left_only@, true, report.right_only@) && are_rows_of(
            r,
            report.right_only@,
            false,
            report.left_only@,
        ) && rows.to_multiset() == (l + r).to_multiset()
}

/// What to do about the members of a difference.
pub fn build_archive_member_plan_rows(report: &ArchiveMemberDiffReport) -> (rows: Vec<
    ArchiveMemberPlanRow,
>)
    ensures
        plans(rows@, report),
        rows@.len() == report.left_only@.len() + report.right_only@.len(),
{
    let mut rows = rows_of(&report.left_only, true, &report.right_only);
    let ghost l = rows@;
    let mut right = rows_of(&report.right_only, false, &report.left_only);
    let ghost r = right@;
    rows.append(&mut right);
    proof {
        assert(rows@ =~= l + r);
        broadcast use vstd::seq_lib::group_to_multiset_ensures;
        assert((l + r).to_multiset().len() == (l + r).len());
    }
    let rows = sort(rows);
    proof {
        broadcast use vstd::seq_lib::group_to_multiset_ensures;
        assert(rows@.to_multiset().len() == rows@.len());
    }
    rows
}

pub open spec fn text_or_nothing(s: Option<String>) -> Seq<char> {
    match s {
        Some(s) => s@,
        None => Seq::empty(),
    }
}

/// The cells of a row of a plan.
pub open spec fn plan_cells(row: ArchiveMemberPlanRow) -> Seq<Seq<char>> {
    seq![
        csv_field(row.action_class@),
        csv_field(row.side@),
        csv_field(row.virtual_member@),
        csv_field(row.rel_path@),
        csv_field(text_or_nothing(row.archive_family)),
        csv_field(text_or_nothing(row.payload_signature)),
        decimal(row.archive_depth as nat),
        decimal(row.size as nat),
        decimal_int(row.mtime_ns as int),
        csv_field(text_or_nothing(row.fast_hash)),
        csv_field(row.signal@),
    ]
}

/// The table of a plan.
pub open spec fn plan_table(rows: Seq<ArchiveMemberPlanRow>) -> Seq<char>
    decreases rows.len(),
{
    if rows.len() == 0 {
        "action_class,side,virtual_member,rel_path,archive_family,payload_signature,archive_depth,size,mtime_ns,fast_hash,signal\n"@
    } else {
        plan_table(rows.drop_last()) + csv_row(plan_cells(rows.last()))
    }
}

/// What to do about the members of a difference, with what it goes by.
#[derive(Debug)]
pub struct ArchiveMemberPlanReport {
    pub report_schema: String,
    pub report_version: u32,
    pub left_label: String,
    pub right_label: String,
    pub source_report_schema: String,
    pub source_report_version: u32,
    pub rows: Vec<ArchiveMemberPlanRow>,
}

/// What to do about the members of a difference, with what it goes by.
pub fn build_archive_member_plan_report(diff: &ArchiveMemberDiffReport) -> (r:
    ArchiveMemberPlanReport)
    ensures
        r.report_schema@ == "nightindex.archive_member_plan"@,
        r.report_version == 1,
        r.left_label@ == diff.left_label@,
        r.right_label@ == diff.right_label@,
        r.source_report_schema@ == diff.report_schema@,
        r.source_report_version == diff.report_version,
        plans(r.rows@, diff),
        r.rows@.len() == diff.left_only@.len() + diff.right_only@.len(),
{
    ArchiveMemberPlanReport {
        report_schema: from_chars(&to_chars("nightindex.archive_member_plan")),
        report_version: 1,
        left_label: diff.left_label.clone(),
        right_label: diff.right_label.clone(),
        source_report_schema: diff.report_schema.clone(),
        source_report_version: diff.report_version,
        rows: build_archive_member_plan_rows(diff),
    }
}

fn push_optional(cells: &mut Vec<Vec<char>>, s: &Option<String>)
    ensures
        char_texts(final(cells)@) == char_texts(old(cells)@).push(csv_field(text_or_nothing(*s))),
{
    match s {
        Some(s) => push_field(cells, s.as_str()),
        None => {
            proof {
                reveal_strlit("");
                assert(""@ =~= Seq::empty());
            }
            push_field(cells, "")
        },
    }
}

/// The table of a plan.
pub fn build_archive_member_plan_csv(report: &ArchiveMemberPlanReport) -> (r: String)
    ensures
        r@ == plan_table(report.rows@),
{
    let rows = &report.rows;
    let mut out = to_chars(
        "action_class,side,virtual_member,rel_path,archive_family,payload_signature,archive_depth,size,mtime_ns,fast_hash,signal\n",
    );
    let mut i: usize = 0;
    assert(rows@.take(0) =~= Seq::empty());
    while i < rows.len()
        invariant
            i <= rows@.len(),
            out@ == plan_table(rows@.take(i as int)),
        decreases rows@.len() - i,
    {
        let row = &rows[i];
        let mut cells: Vec<Vec<char>> = Vec::new();
        assert(char_texts(cells@) =~= Seq::empty());
        push_field(&mut cells, row.action_class.as_str());
        push_field(&mut cells, row.side.as_str());
        push_field(&mut cells, row.virtual_member.as_str());
        push_field(&mut cells, row.rel_path.as_str());
        push_optional(&mut cells, &row.archive_family);
        push_optional(&mut cells, &row.payload_signature);
        push_cell(&mut cells, decimal_chars(row.archive_depth as u128));
        push_cell(&mut cells, decimal_chars(row.size as u128));
        push_cell(&mut cells, decimal_int_chars(row.mtime_ns as i128));
        push_optional(&mut cells, &row.fast_hash);
        push_field(&mut cells, row.signal.as_str());
        proof {
            assert(char_texts(cells@) =~= plan_cells(*row));
            assert(rows@.take(i as int + 1).drop_last() =~= rows@.take(i as int));
        }
        push_row(&mut out, &cells);
        i = i + 1;
    }
    assert(rows@.take(i as int) =~= rows@);
    from_chars(&out)
}

// ---------------------------------------------------------------------------
// Laws
// ---------------------------------------------------------------------------

/// A tree has no members alone against itself.
pub proof fn law_no_difference_from_itself(v: Seq<ExtractCheckEntry>)
    ensures
        only_members(v, v) == Seq::<ArchiveMemberDiffEntry>::empty(),
{
    let keys = members(v);
    let keep = |k: Seq<char>| !keys.contains(k);
    lemma_sorted_set(keys);
    let all = sorted_set(keys);
    assert forall|i: int| 0 <= i < all.len() implies !keep(#[trigger] all[i]) by {
        assert(all.contains(all[i]));
    }
    lemma_filter_none(all, keep);
    assert(only_members(v, v) =~= Seq::empty());
}

/// Nothing is copied that the other side holds under another name.
pub proof fn law_shared_is_reviewed(
    row: ArchiveMemberPlanRow,
    e: ArchiveMemberDiffEntry,
    left: bool,
    others: Seq<ArchiveMemberDiffEntry>,
)
    requires
        is_row_of(row, e, left, others),
        is_shared(e, others),
    ensures
        row.action_class@ == "review_payload_family_match"@,
{
}

/// What to do about a member that one side holds alone: what the other side
/// holds under another name is reviewed, what only this side holds is copied from
/// it, and what is not known is reviewed. The side that a row names is the side
/// that holds the member.
pub proof fn law_rows_name_their_side(
    row: ArchiveMemberPlanRow,
    e: ArchiveMemberDiffEntry,
    left: bool,
    others: Seq<ArchiveMemberDiffEntry>,
)
    requires
        is_row_of(row, e, left, others),
    ensures
        left ==> row.side@ == "left"@,
        !left ==> row.side@ == "right"@,
        ({
            let shared = e.archive_family is Some && e.payload_signature is Some && exists|i: int|
                0 <= i < others.len() && (#[trigger] others[i]).archive_family is Some
                    && others[i].payload_signature is Some && others[i].archive_family->0@ + "|"@
                    + others[i].payload_signature->0@ == e.archive_family->0@ + "|"@
                    + e.payload_signature->0@;
            &&& shared ==> row.action_class@ == "review_payload_family_match"@ && row.signal@
                == "payload_family_match"@
            &&& !shared && e.payload_signature is Some && left ==> row.action_class@
                == "copy_left_only"@ && row.signal@ == "left_only"@
            &&& !shared && e.payload_signature is Some && !left ==> row.action_class@
                == "copy_right_only"@ && row.signal@ == "right_only"@
            &&& e.payload_signature is None && left ==> row.action_class@ == "review_conflict"@
                && row.signal@ == "left_only_no_payload_signature"@
            &&& e.payload_signature is None && !left ==> row.action_class@ == "review_conflict"@
                && row.signal@ == "right_only_no_payload_signature"@
        }),
        row.virtual_member@ == e.virtual_member@,
        row.rel_path@ == e.rel_path@,
        row.archive_depth == e.archive_depth,
        row.size == e.size,
        row.mtime_ns == e.mtime_ns,
        opt_text(row.archive_family) == opt_text(e.archive_family),
        opt_text(row.payload_signature) == opt_text(e.payload_signature),
        opt_text(row.fast_hash) == opt_text(e.fast_hash),
{
    if e.archive_family is Some && e.payload_signature is Some {
        let key = e.archive_family->0@ + "|"@ + e.payload_signature->0@;
        assert(payload_key(e) == Some(key));
        if has_key(others, key) {
            let i = choose|i: int|
                0 <= i < others.len() && payload_key(#[trigger] others[i]) == Some(key);
            assert(others[i].archive_family is Some);
        }
    }
}

/// Every row of a plan is for a member that one side holds alone, and every such
/// member has a row.
pub proof fn law_plan_covers_both_sides(
    rows: Seq<ArchiveMemberPlanRow>,
    report: &ArchiveMemberDiffReport,
    k: int,
)
    requires
        plans(rows, report),
    ensures
        rows.len() == report.left_only@.len() + report.right_only@.len(),
        0 <= k < rows.len() ==> (exists|i: int|
            0 <= i < report.left_only@.len() && is_row_of(
                rows[k],
                #[trigger] report.left_only@[i],
                true,
                report.right_only@,
            )) || (exists|i: int|
            0 <= i < report.right_only@.len() && is_row_of(
                rows[k],
                #[trigger] report.right_only@[i],
                false,
                report.left_only@,
            )),
        0 <= k < report.left_only@.len() ==> exists|j: int|
            0 <= j < rows.len() && is_row_of(
                #[trigger] rows[j],
                report.left_only@[k],
                true,
                report.right_only@,
            ),
        0 <= k < report.right_only@.len() ==> exists|j: int|
            0 <= j < rows.len() && is_row_of(
                #[trigger] rows[j],
                report.right_only@[k],
                false,
                report.left_only@,
            ),
{
    broadcast use vstd::seq_lib::group_to_multiset_ensures;

    let (l, r) = choose|l: Seq<ArchiveMemberPlanRow>, r: Seq<ArchiveMemberPlanRow>|
        #![trigger l + r]
        are_rows_of(l, report.left_only@, true, report.right_only@) && are_rows_of(
            r,
            report.right_only@,
            false,
            report.left_only@,
        ) && rows.to_multiset() == (l + r).to_multiset();
    let all = l + r;
    assert(rows.len() == rows.to_multiset().len());
    assert(all.len() == all.to_multiset().len());
    assert forall|x: ArchiveMemberPlanRow| rows.contains(x) <==> all.contains(x) by {
        assert(rows.contains(x) <==> rows.to_multiset().count(x) > 0);
        assert(all.contains(x) <==> all.to_multiset().count(x) > 0);
    }
    if 0 <= k < rows.len() {
        assert(rows.contains(rows[k]));
        let i = all.index_of(rows[k]);
        if i < l.len() {
            assert(is_row_of(l[i], report.left_only@[i], true, report.right_only@));
        } else {
            let j = i - l.len();
            assert(is_row_of(r[j], report.right_only@[j], false, report.left_only@));
        }
    }
    if 0 <= k < report.left_only@.len() {
        assert(is_row_of(l[k], report.left_only@[k], true, report.right_only@));
        assert(all[k] == l[k]);
        assert(all.contains(l[k]));
        let j = rows.index_of(l[k]);
        assert(is_row_of(rows[j], report.left_only@[k], true, report.right_only@));
    }
    if 0 <= k < report.right_only@.len() {
        assert(is_row_of(r[k], report.right_only@[k], false, report.left_only@));
        assert(all[l.len() + k] == r[k]);
        assert(all.contains(r[k]));
        let j = rows.index_of(r[k]);
        assert(is_row_of(rows[j], report.right_only@[k], false, report.left_only@));
    }
}

/// A member is told to be on one side alone exactly where that side has it and
/// the other has not.
pub proof fn law_lone_members_are_lone(
    left: Seq<ExtractCheckEntry>,
    right: Seq<ExtractCheckEntry>,
    name: Seq<char>,
)
    ensures
        (exists|i: int|
            0 <= i < only_members(left, right).len() && (#[trigger] only_members(
                left,
                right,
            )[i]).virtual_member@ == name) <==> (exists|i: int|
            0 <= i < left.len() && (#[trigger] left[i]).virtual_member@ == name) && !(exists|j: int|
            0 <= j < right.len() && (#[trigger] right[j]).virtual_member@ == name),
{
    let names = members(left);
    let others = members(right);
    let lone = only_in(names, others);
    let keep = |k: Seq<char>| !others.contains(k);
    let items = only_members(left, right);
    lemma_sorted_set(names);
    assert(names.contains(name) <==> exists|i: int|
        0 <= i < left.len() && (#[trigger] left[i]).virtual_member@ == name) by {
        if names.contains(name) {
            assert(left[names.index_of(name)].virtual_member@ == name);
        }
        if exists|i: int| 0 <= i < left.len() && (#[trigger] left[i]).virtual_member@ == name {
            let i = choose|i: int|
                0 <= i < left.len() && (#[trigger] left[i]).virtual_member@ == name;
            assert(names[i] == name);
        }
    }
    assert(others.contains(name) <==> exists|i: int|
        0 <= i < right.len() && (#[trigger] right[i]).virtual_member@ == name) by {
        if others.contains(name) {
            assert(right[others.index_of(name)].virtual_member@ == name);
        }
        if exists|i: int| 0 <= i < right.len() && (#[trigger] right[i]).virtual_member@ == name {
            let i = choose|i: int|
                0 <= i < right.len() && (#[trigger] right[i]).virtual_member@ == name;
            assert(others[i] == name);
        }
    }
    assert forall|i: int| 0 <= i < items.len() implies (#[trigger] items[i]).virtual_member@
        == lone[i] && names.contains(lone[i]) && !others.contains(lone[i]) by {
        sorted_set(names).lemma_filter_pred(keep, i);
        assert(lone.contains(lone[i]));
        sorted_set(names).lemma_filter_contains_rev(keep, lone[i]);
        lemma_last_at(names, lone[i]);
    }
    if names.contains(name) && !others.contains(name) {
        assert(sorted_set(names).contains(name));
        let i = sorted_set(names).index_of(name);
        sorted_set(names).lemma_filter_contains(keep, i);
        let j = lone.index_of(name);
        assert(items[j].virtual_member@ == name);
    }
}

/// Two members hold the same where their families and signatures are the same;
/// a member of which one of these is not known is never shared.
pub proof fn law_shared_by_family_and_signature(
    e: ArchiveMemberDiffEntry,
    others: Seq<ArchiveMemberDiffEntry>,
    i: int,
)
    ensures
        e.archive_family is None || e.payload_signature is None ==> !is_shared(e, others),
        (0 <= i < others.len() && e.archive_family is Some && e.payload_signature is Some
            && opt_text(others[i].archive_family) == opt_text(e.archive_family) && opt_text(
            others[i].payload_signature,
        ) == opt_text(e.payload_signature)) ==> is_shared(e, others),
        (forall|k: int|
            0 <= k < others.len() ==> (#[trigger] others[k]).archive_family is None
                || others[k].payload_signature is None) ==> !is_shared(e, others),
{
    if 0 <= i < others.len() && e.archive_family is Some && e.payload_signature is Some && opt_text(
        others[i].archive_family,
    ) == opt_text(e.archive_family) && opt_text(others[i].payload_signature) == opt_text(
        e.payload_signature,
    ) {
        assert(payload_key(others[i]) == payload_key(e));
    }
}

/// A member tells what the archive that it stands for does.
pub proof fn law_member_tells_its_archive(e: ExtractCheckEntry)
    ensures
        member_of(e).rel_path@ == e.path@,
        member_of(e).virtual_member@ == e.virtual_member@,
        member_of(e).archive_family == e.archive_family,
        member_of(e).payload_signature == e.payload_signature,
        member_of(e).archive_depth == e.archive_depth,
        member_of(e).size == e.size,
        member_of(e).mtime_ns == e.mtime_ns,
        member_of(e).fast_hash == e.fast_hash,
{
}

/// The columns of the table of a plan: each tells of the row what it is named
/// for.
pub proof fn law_columns_of_a_plan(row: ArchiveMemberPlanRow)
    ensures
        plan_cells(row).len() == 11,
        plan_cells(row)[0] == csv_field(row.action_class@),
        plan_cells(row)[1] == csv_field(row.side@),
        plan_cells(row)[2] == csv_field(row.virtual_member@),
        plan_cells(row)[3] == csv_field(row.rel_path@),
        row.archive_family matches Some(s) ==> plan_cells(row)[4] == csv_field(s@),
        row.payload_signature matches Some(s) ==> plan_cells(row)[5] == csv_field(s@),
        plan_cells(row)[6] == decimal(row.archive_depth as nat),
        plan_cells(row)[7] == decimal(row.size as nat),
        plan_cells(row)[8] == decimal_int(row.mtime_ns as int),
        row.fast_hash matches Some(s) ==> plan_cells(row)[9] == csv_field(s@),
        plan_cells(row)[10] == csv_field(row.signal@),
{
}

} // verus!
