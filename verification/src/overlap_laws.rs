//! Laws of what two archives have in common.

use crate::archive_compare::{
    compares, exact_paths, families_differ, family_only, has_family, is_ancestor, is_nested,
    law_shared_within_union, left_texts, max_depth, member_families, member_paths, nested_units,
    pair_texts, path_conflicts, path_weight, right_texts, shared_on_path, total_weight, union_paths,
    ArchiveCompareReport, ArchiveMemberRow,
};
use crate::filter::lemma_filter_keeps;
use crate::textmap::{
    lemma_ascending_distinct, lemma_filter_ascending, lemma_sorted_set, sorted_set,
};
use vstd::prelude::*;

verus! {

proof fn lemma_paths(rows: Seq<ArchiveMemberRow>, p: Seq<char>)
    ensures
        member_paths(rows).contains(p) <==> exists|i: int|
            0 <= i < rows.len() && (#[trigger] rows[i]).path@ == p,
{
    let all = member_paths(rows);
    if all.contains(p) {
        let i = choose|i: int| 0 <= i < all.len() && all[i] == p;
        assert(rows[i].path@ == p);
    }
    if exists|i: int| 0 <= i < rows.len() && (#[trigger] rows[i]).path@ == p {
        let i = choose|i: int| 0 <= i < rows.len() && (#[trigger] rows[i]).path@ == p;
        assert(all[i] == p);
    }
}

proof fn lemma_families(rows: Seq<ArchiveMemberRow>, f: Seq<char>)
    ensures
        member_families(rows).contains(f) <==> exists|i: int|
            0 <= i < rows.len() && (#[trigger] rows[i]).payload_family@ == f,
{
    let all = member_families(rows);
    if all.contains(f) {
        let i = choose|i: int| 0 <= i < all.len() && all[i] == f;
        assert(rows[i].payload_family@ == f);
    }
    if exists|i: int| 0 <= i < rows.len() && (#[trigger] rows[i]).payload_family@ == f {
        let i = choose|i: int| 0 <= i < rows.len() && (#[trigger] rows[i]).payload_family@ == f;
        assert(all[i] == f);
    }
}

/// The paths that two archives share are those that a member of each has.
pub proof fn law_shared_paths_are_on_both_sides(
    left: Seq<ArchiveMemberRow>,
    right: Seq<ArchiveMemberRow>,
    p: Seq<char>,
)
    ensures
        exact_paths(left, right).contains(p) <==> (exists|i: int|
            0 <= i < left.len() && (#[trigger] left[i]).path@ == p) && (exists|j: int|
            0 <= j < right.len() && (#[trigger] right[j]).path@ == p),
        union_paths(left, right).contains(p) <==> (exists|i: int|
            0 <= i < left.len() && (#[trigger] left[i]).path@ == p) || (exists|j: int|
            0 <= j < right.len() && (#[trigger] right[j]).path@ == p),
{
    lemma_paths(left, p);
    lemma_paths(right, p);
    lemma_sorted_set(member_paths(left));
    lemma_sorted_set(member_paths(left) + member_paths(right));
    vstd::seq_lib::lemma_seq_concat_contains_all_elements(
        member_paths(left),
        member_paths(right),
        p,
    );
    lemma_filter_keeps(
        sorted_set(member_paths(left)),
        |q: Seq<char>| member_paths(right).contains(q),
        p,
    );
}

/// The distinct paths of an archive.
pub open spec fn path_set(rows: Seq<ArchiveMemberRow>) -> Set<Seq<char>> {
    member_paths(rows).to_set()
}

proof fn lemma_set_of(list: Seq<Seq<char>>, s: Set<Seq<char>>)
    requires
        list.no_duplicates(),
        forall|p: Seq<char>| list.contains(p) <==> s.contains(p),
    ensures
        list.len() == s.len(),
{
    list.unique_seq_to_set();
    assert(list.to_set() =~= s);
}

proof fn lemma_cardinalities(left: Seq<ArchiveMemberRow>, right: Seq<ArchiveMemberRow>)
    ensures
        exact_paths(left, right).len() == path_set(left).intersect(path_set(right)).len(),
        union_paths(left, right).len() == path_set(left).union(path_set(right)).len(),
{
    let exact = exact_paths(left, right);
    let union = union_paths(left, right);
    lemma_sorted_set(member_paths(left));
    lemma_sorted_set(member_paths(left) + member_paths(right));
    lemma_ascending_distinct(union);
    lemma_ascending_distinct(sorted_set(member_paths(left)));
    let keep = |q: Seq<char>| member_paths(right).contains(q);
    lemma_filter_ascending(sorted_set(member_paths(left)), keep);
    lemma_ascending_distinct(exact);
    assert forall|p: Seq<char>| exact.contains(p) <==> path_set(left).intersect(
        path_set(right),
    ).contains(p) by {
        law_shared_paths_are_on_both_sides(left, right, p);
        lemma_paths(left, p);
        lemma_paths(right, p);
    }
    assert forall|p: Seq<char>| union.contains(p) <==> path_set(left).union(
        path_set(right),
    ).contains(p) by {
        law_shared_paths_are_on_both_sides(left, right, p);
        lemma_paths(left, p);
        lemma_paths(right, p);
    }
    lemma_set_of(exact, path_set(left).intersect(path_set(right)));
    lemma_set_of(union, path_set(left).union(path_set(right)));
}

/// The exact score is the number of distinct paths of both archives, as a part
/// of the number of those of either.
pub proof fn law_exact_score_is_the_shared_part(
    report: &ArchiveCompareReport,
    left: Seq<ArchiveMemberRow>,
    right: Seq<ArchiveMemberRow>,
)
    requires
        compares(report, left, right),
        left.len() + right.len() <= u64::MAX,
    ensures
        left.len() + right.len() > 0 ==> report.scores.exact_overlap_score.num == path_set(
            left,
        ).intersect(path_set(right)).len() && report.scores.exact_overlap_score.den == path_set(
            left,
        ).union(path_set(right)).len(),
        left.len() + right.len() == 0 ==> report.scores.exact_overlap_score.num == 0,
{
    lemma_cardinalities(left, right);
    lemma_sorted_set(member_paths(left) + member_paths(right));
    law_shared_within_union(left, right);
    let union = union_paths(left, right);
    if left.len() > 0 {
        law_shared_paths_are_on_both_sides(left, right, left[0].path@);
        assert(union.contains(left[0].path@));
    }
    if right.len() > 0 {
        law_shared_paths_are_on_both_sides(left, right, right[0].path@);
        assert(union.contains(right[0].path@));
    }
}

/// A path lies below another that it starts with, where a slash comes next; and
/// never below itself.
pub proof fn law_what_lies_below(above: Seq<char>, rest: Seq<char>, path: Seq<char>)
    ensures
        above.len() > 0 ==> is_ancestor(above, above + seq!['/'] + rest),
        is_ancestor(above, path) ==> path == above + seq!['/'] + path.skip(above.len() as int + 1),
        !is_ancestor(above, above),
        !is_ancestor(Seq::empty(), path),
{
    let lead = above + seq!['/'];
    assert((lead + rest).subrange(0, lead.len() as int) =~= lead);
    if is_ancestor(above, path) {
        assert(path.subrange(0, lead.len() as int) == lead);
        assert(path =~= path.subrange(0, lead.len() as int) + path.skip(above.len() as int + 1));
    }
}

/// The nested pairs of a report are those of which one path lies below the
/// other, and stands in one archive alone.
pub proof fn law_nested_pairs_lie_below_one_another(
    report: &ArchiveCompareReport,
    left: Seq<ArchiveMemberRow>,
    right: Seq<ArchiveMemberRow>,
    i: int,
    j: int,
)
    requires
        compares(report, left, right),
        0 <= i < left.len(),
        0 <= j < right.len(),
    ensures
        pair_texts(report.buckets.nested_path_overlap@).contains((left[i].path@, right[j].path@))
            <==> (is_ancestor(right[j].path@, left[i].path@) && forall|k: int|
            0 <= k < right.len() ==> (#[trigger] right[k]).path@ != left[i].path@) || (is_ancestor(
            left[i].path@,
            right[j].path@,
        ) && forall|k: int|
            0 <= k < left.len() ==> (#[trigger] left[k]).path@ != right[j].path@),
{
    let l = left[i].path@;
    let r = right[j].path@;
    lemma_paths(left, l);
    lemma_paths(left, r);
    lemma_paths(right, l);
    lemma_paths(right, r);
    assert(pair_texts(report.buckets.nested_path_overlap@).contains((l, r)) <==> is_nested(
        l,
        r,
        member_paths(left),
        member_paths(right),
    ));
}

/// The depth of a path is the greatest at which a member of it stands.
pub proof fn law_greatest_depth_counts(rows: Seq<ArchiveMemberRow>, path: Seq<char>)
    ensures
        forall|i: int|
            0 <= i < rows.len() && (#[trigger] rows[i]).path@ == path ==> rows[i].depth
                <= max_depth(rows, path),
        max_depth(rows, path) > 0 ==> exists|i: int|
            0 <= i < rows.len() && (#[trigger] rows[i]).path@ == path && rows[i].depth == max_depth(
                rows,
                path,
            ),
        max_depth(rows, path) >= 0,
    decreases rows.len(),
{
    if rows.len() > 0 {
        let init = rows.drop_last();
        law_greatest_depth_counts(init, path);
        assert forall|i: int| 0 <= i < rows.len() && (#[trigger] rows[i]).path@ == path implies
            rows[i].depth <= max_depth(rows, path) by {
            if i < init.len() {
                assert(init[i].path@ == path);
            }
        }
        if max_depth(rows, path) > 0 {
            if max_depth(rows, path) == max_depth(init, path) {
                let i = choose|i: int|
                    0 <= i < init.len() && (#[trigger] init[i]).path@ == path && init[i].depth
                        == max_depth(init, path);
                assert(rows[i].path@ == path);
            } else {
                assert(rows[rows.len() - 1].path@ == path);
            }
        }
    }
}

/// A path weighs one more than its depth on the side where it lies deeper, and
/// paths weigh what each of them does.
pub proof fn law_deeper_paths_weigh_more(
    left: Seq<ArchiveMemberRow>,
    right: Seq<ArchiveMemberRow>,
    path: Seq<char>,
    paths: Seq<Seq<char>>,
)
    ensures
        path_weight(left, right, path) >= max_depth(left, path) + 1,
        path_weight(left, right, path) >= max_depth(right, path) + 1,
        path_weight(left, right, path) == max_depth(left, path) + 1 || path_weight(
            left,
            right,
            path,
        ) == max_depth(right, path) + 1,
        total_weight(paths.push(path), left, right) == total_weight(paths, left, right)
            + path_weight(left, right, path),
        total_weight(Seq::empty(), left, right) == 0,
{
    assert(paths.push(path).drop_last() =~= paths);
}

/// The weighted score is the weight of the paths of both archives as a part of
/// the weight of those of either.
pub proof fn law_weighted_score_is_the_shared_weight(
    report: &ArchiveCompareReport,
    left: Seq<ArchiveMemberRow>,
    right: Seq<ArchiveMemberRow>,
)
    requires
        compares(report, left, right),
        0 < total_weight(union_paths(left, right), left, right) <= u128::MAX,
        total_weight(exact_paths(left, right), left, right) >= 0,
    ensures
        report.scores.depth_weighted_overlap_score.num == total_weight(
            exact_paths(left, right),
            left,
            right,
        ),
        report.scores.depth_weighted_overlap_score.den == total_weight(
            union_paths(left, right),
            left,
            right,
        ),
{
    law_shared_within_union(left, right);
}

/// A path of both archives is in conflict where a member of it is of a family
/// of which none is on the other side.
pub proof fn law_other_families_are_conflicts(
    left: Seq<ArchiveMemberRow>,
    right: Seq<ArchiveMemberRow>,
    i: int,
    j: int,
)
    requires
        0 <= i < left.len(),
        0 <= j < right.len(),
        left[i].path@ == right[j].path@,
    ensures
        (forall|k: int|
            0 <= k < right.len() && (#[trigger] right[k]).path@ == left[i].path@
                ==> right[k].payload_family@ != left[i].payload_family@) ==> path_conflicts(
            left,
            right,
        ).contains(left[i].path@),
        (forall|k: int|
            0 <= k < left.len() && (#[trigger] left[k]).path@ == right[j].path@
                ==> left[k].payload_family@ != right[j].payload_family@) ==> path_conflicts(
            left,
            right,
        ).contains(right[j].path@),
{
    let p = left[i].path@;
    law_shared_paths_are_on_both_sides(left, right, p);
    lemma_filter_keeps(
        exact_paths(left, right),
        |q: Seq<char>| families_differ(left, right, q),
        p,
    );
    let f = left[i].payload_family@;
    let g = right[j].payload_family@;
    assert(has_family(left, p, f));
    assert(has_family(right, p, g));
    if forall|k: int|
        0 <= k < right.len() && (#[trigger] right[k]).path@ == p ==> right[k].payload_family@
            != f {
        assert(!has_family(right, p, f));
        assert(families_differ(left, right, p));
    }
    if forall|k: int|
        0 <= k < left.len() && (#[trigger] left[k]).path@ == p ==> left[k].payload_family@ != g {
        assert(!has_family(left, p, g));
        assert(families_differ(left, right, p));
    }
}

/// Where one member of a path is on each side and they are of one family, there
/// is no conflict.
pub proof fn law_one_family_is_no_conflict(
    left: Seq<ArchiveMemberRow>,
    right: Seq<ArchiveMemberRow>,
    path: Seq<char>,
    family: Seq<char>,
)
    requires
        has_family(left, path, family),
        has_family(right, path, family),
        forall|k: int|
            0 <= k < left.len() && (#[trigger] left[k]).path@ == path
                ==> left[k].payload_family@ == family,
        forall|k: int|
            0 <= k < right.len() && (#[trigger] right[k]).path@ == path
                ==> right[k].payload_family@ == family,
    ensures
        !path_conflicts(left, right).contains(path),
{
    lemma_filter_keeps(
        exact_paths(left, right),
        |q: Seq<char>| families_differ(left, right, q),
        path,
    );
    assert forall|f: Seq<char>| #[trigger] has_family(left, path, f) == has_family(
        right,
        path,
        f,
    ) by {
        if has_family(left, path, f) {
            assert(f == family);
        }
        if has_family(right, path, f) {
            assert(f == family);
        }
    }
}

/// A family is one that only the families share where both archives have it,
/// but no path has it on both sides.
pub proof fn law_families_without_a_path(
    left: Seq<ArchiveMemberRow>,
    right: Seq<ArchiveMemberRow>,
    f: Seq<char>,
)
    ensures
        family_only(left, right).contains(f) <==> (exists|i: int|
            0 <= i < left.len() && (#[trigger] left[i]).payload_family@ == f) && (exists|j: int|
            0 <= j < right.len() && (#[trigger] right[j]).payload_family@ == f) && !exists|
            i: int,
            j: int,
        |
            0 <= i < left.len() && 0 <= j < right.len() && (#[trigger] left[i]).payload_family@ == f
                && (#[trigger] right[j]).payload_family@ == f && left[i].path@ == right[j].path@,
{
    lemma_families(left, f);
    lemma_families(right, f);
    lemma_sorted_set(member_families(left));
    lemma_filter_keeps(
        sorted_set(member_families(left)),
        |g: Seq<char>| member_families(right).contains(g) && !shared_on_path(left, right, g),
        f,
    );
    if shared_on_path(left, right, f) {
        let p = choose|p: Seq<char>|
            #[trigger] has_family(left, p, f) && has_family(right, p, f);
        let i = choose|i: int|
            0 <= i < left.len() && (#[trigger] left[i]).path@ == p && left[i].payload_family@ == f;
        let j = choose|j: int|
            0 <= j < right.len() && (#[trigger] right[j]).path@ == p && right[j].payload_family@
                == f;
        assert(left[i].payload_family@ == f && right[j].payload_family@ == f);
    }
    if exists|i: int, j: int|
        0 <= i < left.len() && 0 <= j < right.len() && (#[trigger] left[i]).payload_family@ == f
            && (#[trigger] right[j]).payload_family@ == f && left[i].path@ == right[j].path@ {
        let (i, j) = choose|i: int, j: int|
            0 <= i < left.len() && 0 <= j < right.len() && (#[trigger] left[i]).payload_family@ == f
                && (#[trigger] right[j]).payload_family@ == f && left[i].path@ == right[j].path@;
        assert(has_family(left, left[i].path@, f));
        assert(has_family(right, left[i].path@, f));
    }
}

/// The nested score counts, beside the paths of both archives, the nested pairs
/// by the distinct paths of the side that has fewer.
pub proof fn law_nested_score_counts_pairs(
    report: &ArchiveCompareReport,
    left: Seq<ArchiveMemberRow>,
    right: Seq<ArchiveMemberRow>,
)
    requires
        compares(report, left, right),
        left.len() + right.len() > 0,
        left.len() + right.len() <= u64::MAX,
    ensures
        ({
            let nested = report.buckets.nested_path_overlap@;
            let l = left_texts(nested).to_set().len();
            let r = right_texts(nested).to_set().len();
            let units = nested_units(nested);
            &&& units <= l
            &&& units <= r
            &&& units == l || units == r
            &&& exact_paths(left, right).len() + units <= u128::MAX
                ==> report.scores.nested_overlap_score.num == exact_paths(left, right).len() + units
            &&& report.scores.nested_overlap_score.den == path_set(left).union(
                path_set(right),
            ).len()
        }),
{
    let nested = report.buckets.nested_path_overlap@;
    lemma_cardinalities(left, right);
    lemma_sorted_set(member_paths(left) + member_paths(right));
    let union = union_paths(left, right);
    if left.len() > 0 {
        law_shared_paths_are_on_both_sides(left, right, left[0].path@);
        assert(union.contains(left[0].path@));
    }
    if right.len() > 0 {
        law_shared_paths_are_on_both_sides(left, right, right[0].path@);
        assert(union.contains(right[0].path@));
    }
    lemma_sorted_set(left_texts(nested));
    lemma_sorted_set(right_texts(nested));
    lemma_ascending_distinct(sorted_set(left_texts(nested)));
    lemma_ascending_distinct(sorted_set(right_texts(nested)));
    lemma_set_of(sorted_set(left_texts(nested)), left_texts(nested).to_set());
    lemma_set_of(sorted_set(right_texts(nested)), right_texts(nested).to_set());
}

} // verus!
