//! Copy plans: what one tree has and another lacks or has otherwise, and the
//! choice among it.

use crate::filter::{
    lemma_filter_all, lemma_filter_none, lemma_filter_prefix, lemma_filter_start, lemma_filter_step,
};
use crate::pattern::{any_matches, any_pattern_matches, PatternSpec};
use crate::policy::{excluded, should_exclude_path, ExcludePolicy};
use crate::record::{
    has_path, index_rows, indexes, last_index, lemma_last_index, paths_of, row_of, same_meta,
    sorted_paths, FileRecord,
};
use crate::text::{copy_opt, opt_text};
use crate::textmap::{ascending, lemma_filter_ascending, lemma_sorted_set};
use vstd::prelude::*;

verus! {

/// An entry to copy.
#[derive(Debug)]
pub struct CopyPlanItem {
    pub rel_path: String,
    pub file_type: String,
    pub size: u64,
    pub mtime_ns: i64,
    pub fast_hash: Option<String>,
}

/// The counts of a plan.
#[derive(Clone, Copy, Debug, PartialEq, Eq, Structural)]
pub struct CopyPlanSummary {
    pub files_to_copy: usize,
    pub bytes_to_copy: u64,
    pub left_files: usize,
    pub right_files: usize,
}

/// What to copy from one tree to another.
#[derive(Debug)]
pub struct CopyPlan {
    pub mode: String,
    pub left_label: String,
    pub right_label: String,
    pub left_db: Option<String>,
    pub right_db: Option<String>,
    pub generated_at_ns: i64,
    pub summary: CopyPlanSummary,
    pub items: Vec<CopyPlanItem>,
}

impl CopyPlanItem {
    pub fn copy(&self) -> (r: Self)
        ensures
            r == *self,
    {
        CopyPlanItem {
            rel_path: self.rel_path.clone(),
            file_type: self.file_type.clone(),
            size: self.size,
            mtime_ns: self.mtime_ns,
            fast_hash: copy_opt(&self.fast_hash),
        }
    }
}

/// Whether two plans are for the same trees and of the same time.
pub open spec fn same_origin(a: CopyPlan, b: CopyPlan) -> bool {
    &&& a.mode == b.mode
    &&& a.left_label == b.left_label
    &&& a.right_label == b.right_label
    &&& a.left_db == b.left_db
    &&& a.right_db == b.right_db
    &&& a.generated_at_ns == b.generated_at_ns
    &&& a.summary.left_files == b.summary.left_files
    &&& a.summary.right_files == b.summary.right_files
}

/// The bytes of the entries together.
pub open spec fn total_size(items: Seq<CopyPlanItem>) -> nat
    decreases items.len(),
{
    if items.len() == 0 {
        0
    } else {
        total_size(items.drop_last()) + items.last().size as nat
    }
}

pub proof fn lemma_total_size_prefix(items: Seq<CopyPlanItem>, n: int)
    requires
        0 <= n <= items.len(),
    ensures
        total_size(items.take(n)) <= total_size(items),
    decreases items.len(),
{
    if n < items.len() {
        lemma_total_size_prefix(items.drop_last(), n);
        assert(items.drop_last().take(n) =~= items.take(n));
    } else {
        assert(items.take(n) =~= items);
    }
}

// ---------------------------------------------------------------------------
// What is missing or has changed
// ---------------------------------------------------------------------------

/// Whether a policy, where there is one, leaves a path out.
pub open spec fn left_out(path: Seq<char>, policy: Option<&ExcludePolicy>) -> bool {
    match policy {
        Some(p) => excluded(path, *p),
        None => false,
    }
}

/// Whether a path of the left rows has to be copied: the policy lets it through,
/// and the right rows lack it or have it otherwise.
pub open spec fn to_copy(
    left: Seq<FileRecord>,
    right: Seq<FileRecord>,
    policy: Option<&ExcludePolicy>,
    path: Seq<char>,
) -> bool {
    !left_out(path, policy) && (!has_path(right, path) || !same_meta(
        row_of(left, path),
        row_of(right, path),
    ))
}

/// The entry to copy for a row.
pub open spec fn item_of(row: FileRecord) -> CopyPlanItem {
    CopyPlanItem {
        rel_path: row.rel_path,
        file_type: row.file_type,
        size: row.size,
        mtime_ns: row.mtime_ns,
        fast_hash: row.fast_hash,
    }
}

/// The entries of the left rows that the right rows lack or have otherwise, in
/// the order of their paths.
pub open spec fn wanted_items(
    left: Seq<FileRecord>,
    right: Seq<FileRecord>,
    policy: Option<&ExcludePolicy>,
) -> Seq<CopyPlanItem> {
    sorted_paths(left).filter(|p: Seq<char>| to_copy(left, right, policy, p)).map_values(
        |p: Seq<char>| item_of(row_of(left, p)),
    )
}

/// The plan to copy what the right rows lack of the left rows, or have otherwise.
pub fn build_copy_missing_plan(
    left_rows: &Vec<FileRecord>,
    right_rows: &Vec<FileRecord>,
    left_db: &str,
    right_db: &str,
    left: &str,
    right: &str,
    policy: Option<&ExcludePolicy>,
    generated_at_ns: i64,
) -> (r: CopyPlan)
    requires
        policy is Some ==> policy->0.wf(),
        total_size(wanted_items(left_rows@, right_rows@, policy)) <= u64::MAX,
    ensures
        r.mode@ == "copy-missing"@,
        r.left_label@ == left@,
        r.right_label@ == right@,
        opt_text(r.left_db) == Some(left_db@),
        opt_text(r.right_db) == Some(right_db@),
        r.generated_at_ns == generated_at_ns,
        r.items@ == wanted_items(left_rows@, right_rows@, policy),
        r.summary.files_to_copy == r.items@.len(),
        r.summary.bytes_to_copy == total_size(r.items@),
        r.summary.left_files == sorted_paths(left_rows@).len(),
        r.summary.right_files == sorted_paths(right_rows@).len(),
{
    let left_map = index_rows(left_rows);
    let right_map = index_rows(right_rows);
    let mut items: Vec<CopyPlanItem> = Vec::new();
    let mut bytes: u64 = 0;
    let mut i: usize = 0;
    let ghost keys = sorted_paths(left_rows@);
    let ghost wanted = |p: Seq<char>| to_copy(left_rows@, right_rows@, policy, p);
    let ghost make = |p: Seq<char>| item_of(row_of(left_rows@, p));
    let ghost goal = keys.filter(wanted).map_values(make);
    proof {
        lemma_filter_start(keys, wanted);
        assert(keys.take(0).filter(wanted).map_values(make) =~= Seq::empty());
    }
    while i < left_map.len()
        invariant
            indexes(left_map, left_rows@),
            indexes(right_map, right_rows@),
            i <= left_map.key_seq().len(),
            policy is Some ==> policy->0.wf(),
            keys == sorted_paths(left_rows@),
            wanted == (|p: Seq<char>| to_copy(left_rows@, right_rows@, policy, p)),
            make == (|p: Seq<char>| item_of(row_of(left_rows@, p))),
            goal == keys.filter(wanted).map_values(make),
            total_size(goal) <= u64::MAX,
            items@ == keys.take(i as int).filter(wanted).map_values(make),
            bytes == total_size(items@),
        decreases left_map.key_seq().len() - i,
    {
        let path = left_map.key_at(i);
        let ghost p0 = path@;
        proof {
            left_map.lemma_entries();
            lemma_filter_step(keys, wanted, i as int);
            lemma_last_index(left_rows@, p0);
        }
        let left_out = match policy {
            Some(p) => should_exclude_path(path.as_str(), p),
            None => false,
        };
        let row = &left_rows[*left_map.value_at(i)];
        proof {
            assert(left_map@.contains_key(p0));
            assert(*row == row_of(left_rows@, p0));
            lemma_last_index(right_rows@, p0);
        }
        let unchanged = match right_map.get(path.as_str()) {
            Some(at) => row.is_unchanged(&right_rows[*at]),
            None => false,
        };
        if !left_out && !unchanged {
            proof {
                let next = keys.take(i as int + 1).filter(wanted).map_values(make);
                assert(next =~= items@.push(item_of(*row)));
                assert(next.drop_last() =~= items@);
                // The entries so far are a prefix of all entries.
                lemma_filter_prefix(keys, wanted, i as int + 1);
                let n = keys.take(i as int + 1).filter(wanted).len() as int;
                assert(goal.take(n) =~= next);
                lemma_total_size_prefix(goal, n);
            }
            bytes = bytes + row.size;
            items.push(
                CopyPlanItem {
                    rel_path: row.rel_path.clone(),
                    file_type: row.file_type.clone(),
                    size: row.size,
                    mtime_ns: row.mtime_ns,
                    fast_hash: copy_opt(&row.fast_hash),
                },
            );
        }
        i = i + 1;
    }
    assert(keys.take(i as int) =~= keys);
    CopyPlan {
        mode: "copy-missing".to_owned(),
        left_label: left.to_owned(),
        right_label: right.to_owned(),
        left_db: Some(left_db.to_owned()),
        right_db: Some(right_db.to_owned()),
        generated_at_ns,
        summary: CopyPlanSummary {
            files_to_copy: items.len(),
            bytes_to_copy: bytes,
            left_files: left_map.len(),
            right_files: right_map.len(),
        },
        items,
    }
}

// ---------------------------------------------------------------------------
// Choosing among the entries
// ---------------------------------------------------------------------------

/// Whether the patterns choose an entry: one of the first ones, where there
/// are any, and none of the others.
pub open spec fn chosen(
    item: CopyPlanItem,
    wanted: Seq<PatternSpec>,
    unwanted: Seq<PatternSpec>,
) -> bool {
    (wanted.len() == 0 || any_matches(wanted, item.rel_path@)) && !any_matches(
        unwanted,
        item.rel_path@,
    )
}

/// The age of an entry at a time, between zero and what 64 bits hold.
pub open spec fn age_at(item: CopyPlanItem, now_ns: i64) -> int {
    let age = now_ns - item.mtime_ns;
    if age < 0 {
        0
    } else if age > i64::MAX {
        i64::MAX as int
    } else {
        age
    }
}

/// What an entry is kept by.
enum Choice<'a> {
    Patterns(&'a [PatternSpec], &'a [PatternSpec]),
    Listed(&'a [PatternSpec]),
    Age(i64, i64),
}

impl<'a> Choice<'a> {
    spec fn keeps(&self, item: CopyPlanItem) -> bool {
        match self {
            Choice::Patterns(wanted, unwanted) => chosen(item, wanted@, unwanted@),
            Choice::Listed(listed) => any_matches(listed@, item.rel_path@),
            Choice::Age(max, now) => age_at(item, *now) <= *max,
        }
    }

    fn test(&self, item: &CopyPlanItem) -> (r: bool)
        ensures
            r == self.keeps(*item),
    {
        match self {
            Choice::Patterns(wanted, unwanted) => {
                (wanted.len() == 0 || any_pattern_matches(wanted, item.rel_path.as_str()))
                    && !any_pattern_matches(unwanted, item.rel_path.as_str())
            },
            Choice::Listed(listed) => any_pattern_matches(listed, item.rel_path.as_str()),
            Choice::Age(max, now) => {
                let age: i128 = *now as i128 - item.mtime_ns as i128;
                let age: i128 = if age < 0 {
                    0
                } else if age > i64::MAX as i128 {
                    i64::MAX as i128
                } else {
                    age
                };
                age <= *max as i128
            },
        }
    }
}

/// The plan with the entries that a choice keeps.
fn keep_chosen(plan: &CopyPlan, choice: &Choice) -> (r: CopyPlan)
    requires
        total_size(plan.items@.filter(|item: CopyPlanItem| choice.keeps(item))) <= u64::MAX,
    ensures
        same_origin(r, *plan),
        r.items@ == plan.items@.filter(|item: CopyPlanItem| choice.keeps(item)),
        r.summary.files_to_copy == r.items@.len(),
        r.summary.bytes_to_copy == total_size(r.items@),
{
    let ghost keep = |item: CopyPlanItem| choice.keeps(item);
    let mut items: Vec<CopyPlanItem> = Vec::new();
    let mut bytes: u64 = 0;
    let mut i: usize = 0;
    proof {
        lemma_filter_start(plan.items@, keep);
    }
    while i < plan.items.len()
        invariant
            i <= plan.items@.len(),
            keep == (|item: CopyPlanItem| choice.keeps(item)),
            items@ == plan.items@.take(i as int).filter(keep),
            bytes == total_size(items@),
            total_size(plan.items@.filter(keep)) <= u64::MAX,
        decreases plan.items@.len() - i,
    {
        let item = &plan.items[i];
        let ghost next = plan.items@.take(i as int + 1);
        proof {
            lemma_filter_step(plan.items@, keep, i as int);
        }
        if choice.test(item) {
            proof {
                assert(next.filter(keep) =~= items@.push(*item));
                assert(next.filter(keep).drop_last() =~= items@);
                lemma_filter_prefix(plan.items@, keep, i as int + 1);
                lemma_total_size_prefix(plan.items@.filter(keep), next.filter(keep).len() as int);
            }
            bytes = bytes + item.size;
            items.push(item.copy());
        }
        i = i + 1;
    }
    assert(plan.items@.take(i as int) =~= plan.items@);
    CopyPlan {
        mode: plan.mode.clone(),
        left_label: plan.left_label.clone(),
        right_label: plan.right_label.clone(),
        left_db: copy_opt(&plan.left_db),
        right_db: copy_opt(&plan.right_db),
        generated_at_ns: plan.generated_at_ns,
        summary: CopyPlanSummary {
            files_to_copy: items.len(),
            bytes_to_copy: bytes,
            left_files: plan.summary.left_files,
            right_files: plan.summary.right_files,
        },
        items,
    }
}

impl CopyPlan {
    pub fn copy(&self) -> (r: Self)
        ensures
            same_origin(r, *self),
            r.summary == self.summary,
            r.items@ == self.items@,
    {
        let mut items: Vec<CopyPlanItem> = Vec::new();
        let mut i: usize = 0;
        while i < self.items.len()
            invariant
                i <= self.items@.len(),
                items@ == self.items@.take(i as int),
            decreases self.items@.len() - i,
        {
            items.push(self.items[i].copy());
            i = i + 1;
        }
        assert(self.items@.take(i as int) =~= self.items@);
        CopyPlan {
            mode: self.mode.clone(),
            left_label: self.left_label.clone(),
            right_label: self.right_label.clone(),
            left_db: copy_opt(&self.left_db),
            right_db: copy_opt(&self.right_db),
            generated_at_ns: self.generated_at_ns,
            summary: self.summary,
            items,
        }
    }
}

/// The plan with the entries that the patterns choose; without patterns, the
/// plan as it is.
pub fn filter_plan_by_patterns(
    plan: &CopyPlan,
    include_patterns: &[PatternSpec],
    filter_exclude_patterns: &[PatternSpec],
) -> (r: CopyPlan)
    requires
        include_patterns@.len() > 0 || filter_exclude_patterns@.len() > 0 ==> total_size(
            plan.items@.filter(
                |item: CopyPlanItem| chosen(item, include_patterns@, filter_exclude_patterns@),
            ),
        ) <= u64::MAX,
    ensures
        same_origin(r, *plan),
        r.items@ == plan.items@.filter(
            |item: CopyPlanItem| chosen(item, include_patterns@, filter_exclude_patterns@),
        ),
        include_patterns@.len() == 0 && filter_exclude_patterns@.len() == 0 ==> r.summary
            == plan.summary && r.items@ == plan.items@,
        include_patterns@.len() > 0 || filter_exclude_patterns@.len() > 0
            ==> r.summary.files_to_copy == r.items@.len() && r.summary.bytes_to_copy
            == total_size(r.items@),
{
    let ghost keep = |item: CopyPlanItem|
        chosen(item, include_patterns@, filter_exclude_patterns@);
    if include_patterns.len() == 0 && filter_exclude_patterns.len() == 0 {
        proof {
            lemma_filter_all(plan.items@, keep);
        }
        return plan.copy();
    }
    let choice = Choice::Patterns(include_patterns, filter_exclude_patterns);
    proof {
        assert((|item: CopyPlanItem| choice.keeps(item)) =~= keep);
    }
    keep_chosen(plan, &choice)
}

/// The plan with the entries that the list names; without a list, the plan as
/// it is.
pub fn filter_plan_by_files_from(plan: &CopyPlan, files_from_patterns: &[PatternSpec]) -> (r:
    CopyPlan)
    requires
        files_from_patterns@.len() > 0 ==> total_size(
            plan.items@.filter(
                |item: CopyPlanItem| any_matches(files_from_patterns@, item.rel_path@),
            ),
        ) <= u64::MAX,
    ensures
        same_origin(r, *plan),
        files_from_patterns@.len() == 0 ==> r.summary == plan.summary && r.items@ == plan.items@,
        files_from_patterns@.len() > 0 ==> {
            &&& r.items@ == plan.items@.filter(
                |item: CopyPlanItem| any_matches(files_from_patterns@, item.rel_path@),
            )
            &&& r.summary.files_to_copy == r.items@.len()
            &&& r.summary.bytes_to_copy == total_size(r.items@)
        },
{
    if files_from_patterns.len() == 0 {
        return plan.copy();
    }
    let choice = Choice::Listed(files_from_patterns);
    proof {
        assert((|item: CopyPlanItem| choice.keeps(item)) =~= (|item: CopyPlanItem|
            any_matches(files_from_patterns@, item.rel_path@)));
    }
    keep_chosen(plan, &choice)
}

/// The plan with the entries that are no older than an age; without an age,
/// none.
pub fn filter_plan_by_max_age(plan: &CopyPlan, max_age_ns: i64, now_ns: i64) -> (r: CopyPlan)
    requires
        total_size(
            plan.items@.filter(
                |item: CopyPlanItem| max_age_ns > 0 && age_at(item, now_ns) <= max_age_ns,
            ),
        ) <= u64::MAX,
    ensures
        same_origin(r, *plan),
        r.items@ == plan.items@.filter(
            |item: CopyPlanItem| max_age_ns > 0 && age_at(item, now_ns) <= max_age_ns,
        ),
        r.summary.files_to_copy == r.items@.len(),
        r.summary.bytes_to_copy == total_size(r.items@),
{
    let ghost keep = |item: CopyPlanItem|
        max_age_ns > 0 && age_at(item, now_ns) <= max_age_ns;
    if max_age_ns <= 0 {
        proof {
            lemma_filter_none(plan.items@, keep);
        }
        return CopyPlan {
            mode: plan.mode.clone(),
            left_label: plan.left_label.clone(),
            right_label: plan.right_label.clone(),
            left_db: copy_opt(&plan.left_db),
            right_db: copy_opt(&plan.right_db),
            generated_at_ns: plan.generated_at_ns,
            summary: CopyPlanSummary {
                files_to_copy: 0,
                bytes_to_copy: 0,
                left_files: plan.summary.left_files,
                right_files: plan.summary.right_files,
            },
            items: Vec::new(),
        };
    }
    let choice = Choice::Age(max_age_ns, now_ns);
    proof {
        assert((|item: CopyPlanItem| choice.keeps(item)) =~= keep);
    }
    keep_chosen(plan, &choice)
}

// ---------------------------------------------------------------------------
// Laws
// ---------------------------------------------------------------------------

/// The row that a copied entry leaves in the index of the other tree.
pub open spec fn row_of_item(item: CopyPlanItem) -> FileRecord {
    FileRecord {
        rel_path: item.rel_path,
        file_type: item.file_type,
        size: item.size,
        mtime_ns: item.mtime_ns,
        fast_hash: item.fast_hash,
    }
}

proof fn lemma_wanted_at(
    left: Seq<FileRecord>,
    right: Seq<FileRecord>,
    policy: Option<&ExcludePolicy>,
    i: int,
)
    requires
        0 <= i < wanted_items(left, right, policy).len(),
    ensures
        ({
            let p = wanted_items(left, right, policy)[i].rel_path@;
            &&& has_path(left, p)
            &&& to_copy(left, right, policy, p)
            &&& wanted_items(left, right, policy)[i] == item_of(row_of(left, p))
            &&& sorted_paths(left).filter(|p: Seq<char>| to_copy(left, right, policy, p))[i] == p
        }),
{
    let keys = sorted_paths(left);
    let wanted = |p: Seq<char>| to_copy(left, right, policy, p);
    let p = keys.filter(wanted)[i];
    keys.lemma_filter_pred(wanted, i);
    assert(keys.filter(wanted).contains(p));
    keys.lemma_filter_contains_rev(wanted, p);
    lemma_sorted_set(paths_of(left));
    assert(keys.contains(p));
    lemma_last_index(left, p);
}

/// An entry is planned exactly for each path of the left tree that the policy
/// lets through and that the right tree lacks or has otherwise; it tells of the
/// left tree's row.
pub proof fn law_plan_is_complete(
    left: Seq<FileRecord>,
    right: Seq<FileRecord>,
    policy: Option<&ExcludePolicy>,
    path: Seq<char>,
)
    ensures
        (exists|i: int|
            0 <= i < wanted_items(left, right, policy).len() && (#[trigger] wanted_items(
                left,
                right,
                policy,
            )[i]).rel_path@ == path) <==> has_path(left, path) && !left_out(path, policy) && (
        !has_path(right, path) || !same_meta(row_of(left, path), row_of(right, path))),
        forall|i: int|
            0 <= i < wanted_items(left, right, policy).len() && (#[trigger] wanted_items(
                left,
                right,
                policy,
            )[i]).rel_path@ == path ==> wanted_items(left, right, policy)[i] == item_of(
                row_of(left, path),
            ),
{
    let items = wanted_items(left, right, policy);
    let keys = sorted_paths(left);
    let wanted = |p: Seq<char>| to_copy(left, right, policy, p);
    if exists|i: int| 0 <= i < items.len() && (#[trigger] items[i]).rel_path@ == path {
        let i = choose|i: int| 0 <= i < items.len() && (#[trigger] items[i]).rel_path@ == path;
        lemma_wanted_at(left, right, policy, i);
    }
    assert forall|i: int|
        0 <= i < items.len() && (#[trigger] items[i]).rel_path@ == path implies items[i] == item_of(
        row_of(left, path),
    ) by {
        lemma_wanted_at(left, right, policy, i);
    }
    if has_path(left, path) && to_copy(left, right, policy, path) {
        lemma_last_index(left, path);
        lemma_sorted_set(paths_of(left));
        assert(keys.contains(path));
        let k = keys.index_of(path);
        keys.lemma_filter_contains(wanted, k);
        assert(keys.filter(wanted).contains(path));
        let i = keys.filter(wanted).index_of(path);
        assert(items[i] == item_of(row_of(left, path)));
        assert(items[i].rel_path@ == path);
    }
}

/// The entries of a plan stand in the order of their paths, and no two have
/// the same path.
pub proof fn law_plan_is_ordered(
    left: Seq<FileRecord>,
    right: Seq<FileRecord>,
    policy: Option<&ExcludePolicy>,
)
    ensures
        ascending(
            wanted_items(left, right, policy).map_values(|item: CopyPlanItem| item.rel_path@),
        ),
{
    let items = wanted_items(left, right, policy);
    let keys = sorted_paths(left);
    let wanted = |p: Seq<char>| to_copy(left, right, policy, p);
    lemma_sorted_set(paths_of(left));
    lemma_filter_ascending(keys, wanted);
    let paths = items.map_values(|item: CopyPlanItem| item.rel_path@);
    assert forall|i: int| 0 <= i < items.len() implies paths[i] == keys.filter(wanted)[i] by {
        lemma_wanted_at(left, right, policy, i);
    }
    assert(paths =~= keys.filter(wanted));
}

/// Nothing is missing from a tree, and nothing has changed in it, where it is
/// compared with itself.
pub proof fn law_nothing_missing_from_itself(
    rows: Seq<FileRecord>,
    policy: Option<&ExcludePolicy>,
)
    ensures
        wanted_items(rows, rows, policy).len() == 0,
{
    if wanted_items(rows, rows, policy).len() > 0 {
        lemma_wanted_at(rows, rows, policy, 0);
    }
}

/// Once all entries of a plan are copied, nothing is left to copy.
pub proof fn law_copying_completes(
    left: Seq<FileRecord>,
    right: Seq<FileRecord>,
    policy: Option<&ExcludePolicy>,
)
    ensures
        wanted_items(
            left,
            right + wanted_items(left, right, policy).map_values(
                |item: CopyPlanItem| row_of_item(item),
            ),
            policy,
        ).len() == 0,
{
    let items = wanted_items(left, right, policy);
    let copied = items.map_values(|item: CopyPlanItem| row_of_item(item));
    let after = right + copied;
    if wanted_items(left, after, policy).len() > 0 {
        lemma_wanted_at(left, after, policy, 0);
        let p = wanted_items(left, after, policy)[0].rel_path@;
        lemma_last_index(copied, p);
        lemma_last_of_both(right, copied, p);
        law_plan_is_complete(left, right, policy, p);
        if has_path(copied, p) {
            let i = last_index(copied, p)->0;
            assert(items[i].rel_path@ == p);
            assert(row_of(after, p) == row_of_item(items[i]));
        } else if to_copy(left, right, policy, p) {
            let i = choose|i: int| 0 <= i < items.len() && (#[trigger] items[i]).rel_path@ == p;
            assert(copied[i].rel_path@ == p);
        }
    }
}

/// The last row of a path among two lists is that of the second one, where it
/// has one.
proof fn lemma_last_of_both(a: Seq<FileRecord>, b: Seq<FileRecord>, path: Seq<char>)
    ensures
        has_path(a + b, path) == (has_path(a, path) || has_path(b, path)),
        has_path(b, path) ==> row_of(a + b, path) == row_of(b, path),
        !has_path(b, path) && has_path(a, path) ==> row_of(a + b, path) == row_of(a, path),
        has_path(b, path) ==> last_index(a + b, path) == Some(a.len() + last_index(b, path)->0),
        !has_path(b, path) ==> last_index(a + b, path) == last_index(a, path),
    decreases b.len(),
{
    lemma_last_index(a, path);
    lemma_last_index(b, path);
    if b.len() == 0 {
        assert(a + b =~= a);
    } else {
        assert((a + b).drop_last() =~= a + b.drop_last());
        lemma_last_of_both(a, b.drop_last(), path);
        lemma_last_index(b.drop_last(), path);
    }
}

/// The order in which two choices are made among the entries does not matter.
pub proof fn law_choices_commute(
    items: Seq<CopyPlanItem>,
    a: spec_fn(CopyPlanItem) -> bool,
    b: spec_fn(CopyPlanItem) -> bool,
)
    ensures
        items.filter(a).filter(b) == items.filter(b).filter(a),
        items.filter(a).filter(b) == items.filter(|item: CopyPlanItem| a(item) && b(item)),
    decreases items.len(),
{
    reveal(Seq::filter);
    let both = |item: CopyPlanItem| a(item) && b(item);
    if items.len() > 0 {
        let init = items.drop_last();
        let x = items.last();
        law_choices_commute(init, a, b);
        if a(x) {
            assert(init.filter(a).push(x).drop_last() =~= init.filter(a));
        }
        if b(x) {
            assert(init.filter(b).push(x).drop_last() =~= init.filter(b));
        }
    } else {
        assert(items.filter(a) =~= items);
        assert(items.filter(b) =~= items);
    }
}

} // verus!
