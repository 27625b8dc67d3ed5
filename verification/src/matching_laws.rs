//! Laws of the matching of folders.

use crate::dossier::{sound, sum_of, FolderSignature};
use crate::matching::{
    are_best_matches, better, chosen, chosen_pair, common_weight, confidence_of, exceeds,
    lemma_above_asymmetric, lemma_above_negatively_transitive, lemma_above_total, may_match,
    overlap, overlap_in, rank_of, rank_values, shared_in, shared_weight, tells_pair, union_weight,
    DossierConfidenceTier, DossierMatch, DossierTokenFamily, Rank,
};
use crate::order::{in_order, Ranked};
use crate::ratio::{lemma_lt_negatively_transitive, Ratio};
use crate::text::{lemma_text_lt_total, text_lt};
use crate::textmap::{lemma_ascending_distinct, TextMap};
use vstd::prelude::*;
use vstd::set_lib::{
    lemma_int_range, lemma_len_subset, lemma_set_empty_equivalency_len, set_int_range,
};

verus! {

/// The weight that the token `i` of one signature shares with the token `j` of
/// another.
spec fn cell(l: TextMap<u128>, r: TextMap<u128>, i: int, j: int) -> nat {
    if l.key_seq()[i] == r.key_seq()[j] {
        if l.value_seq()[i] <= r.value_seq()[j] {
            l.value_seq()[i] as nat
        } else {
            r.value_seq()[j] as nat
        }
    } else {
        0
    }
}

/// The weight that the token `i` shares with the first `m` tokens of another
/// signature.
spec fn row_sum(l: TextMap<u128>, r: TextMap<u128>, i: int, m: int) -> nat
    decreases m,
{
    if m <= 0 {
        0
    } else {
        row_sum(l, r, i, m - 1) + cell(l, r, i, m - 1)
    }
}

/// The weight that the first `n` tokens share with the first `m` of another
/// signature.
spec fn grid_sum(l: TextMap<u128>, r: TextMap<u128>, n: int, m: int) -> nat
    decreases n,
{
    if n <= 0 {
        0
    } else {
        grid_sum(l, r, n - 1, m) + row_sum(l, r, n - 1, m)
    }
}

proof fn lemma_row_sum(l: TextMap<u128>, r: TextMap<u128>, i: int, m: int)
    requires
        l.wf(),
        r.wf(),
        0 <= i < l.key_seq().len(),
        0 <= m <= r.key_seq().len(),
    ensures
        r.key_seq().take(m).contains(l.key_seq()[i]) ==> row_sum(l, r, i, m) == cell(
            l,
            r,
            i,
            r.key_seq().index_of(l.key_seq()[i]),
        ),
        !r.key_seq().take(m).contains(l.key_seq()[i]) ==> row_sum(l, r, i, m) == 0,
    decreases m,
{
    let k = l.key_seq()[i];
    let keys = r.key_seq();
    if m > 0 {
        lemma_row_sum(l, r, i, m - 1);
        lemma_ascending_distinct(keys);
        if keys.take(m - 1).contains(k) {
            let p = keys.take(m - 1).index_of(k);
            assert(keys[p] == k);
            assert(keys.take(m)[p] == k);
            assert(keys[m - 1] != k);
        } else if keys[m - 1] == k {
            assert(keys.take(m)[m - 1] == k);
            assert(keys.contains(k));
            assert(keys[keys.index_of(k)] == k);
        } else {
            assert(!keys.take(m).contains(k)) by {
                if keys.take(m).contains(k) {
                    let p = keys.take(m).index_of(k);
                    assert(keys.take(m - 1)[p] == k);
                }
            }
        }
    }
}

proof fn lemma_row_is_common(l: TextMap<u128>, r: TextMap<u128>, i: int)
    requires
        l.wf(),
        r.wf(),
        0 <= i < l.key_seq().len(),
    ensures
        row_sum(l, r, i, r.key_seq().len() as int) == common_weight(
            l.key_seq()[i],
            l.value_seq()[i],
            r@,
        ),
{
    let keys = r.key_seq();
    let k = l.key_seq()[i];
    lemma_row_sum(l, r, i, keys.len() as int);
    assert(keys.take(keys.len() as int) =~= keys);
    r.lemma_entries();
    if keys.contains(k) {
        let j = keys.index_of(k);
        assert(keys[j] == k);
        assert(r@[keys[j]] == r.value_seq()[j]);
    }
}

proof fn lemma_shared_is_grid(l: TextMap<u128>, r: TextMap<u128>, n: int)
    requires
        l.wf(),
        r.wf(),
        0 <= n <= l.key_seq().len(),
    ensures
        shared_weight(l, r@, n) == grid_sum(l, r, n, r.key_seq().len() as int),
    decreases n,
{
    if n > 0 {
        lemma_shared_is_grid(l, r, n - 1);
        lemma_row_is_common(l, r, n - 1);
    }
}

proof fn lemma_grid_column(l: TextMap<u128>, r: TextMap<u128>, n: int, m: int)
    requires
        0 <= n <= l.key_seq().len(),
        0 < m <= r.key_seq().len(),
    ensures
        grid_sum(l, r, n, m) == grid_sum(l, r, n, m - 1) + row_sum(r, l, m - 1, n),
    decreases n,
{
    if n > 0 {
        lemma_grid_column(l, r, n - 1, m);
        assert(cell(l, r, n - 1, m - 1) == cell(r, l, m - 1, n - 1));
    }
}

proof fn lemma_grid_empty(l: TextMap<u128>, r: TextMap<u128>, n: int)
    ensures
        grid_sum(l, r, n, 0) == 0,
    decreases n,
{
    if n > 0 {
        lemma_grid_empty(l, r, n - 1);
    }
}

proof fn lemma_grid_transposed(l: TextMap<u128>, r: TextMap<u128>, n: int, m: int)
    requires
        0 <= n <= l.key_seq().len(),
        0 <= m <= r.key_seq().len(),
    ensures
        grid_sum(l, r, n, m) == grid_sum(r, l, m, n),
    decreases m,
{
    if m > 0 {
        lemma_grid_transposed(l, r, n, m - 1);
        lemma_grid_column(l, r, n, m);
    } else {
        lemma_grid_empty(l, r, n);
    }
}

/// Two folders share the same weight from either side.
pub proof fn law_overlap_symmetric(l: FolderSignature, r: FolderSignature)
    requires
        l.wf(),
        r.wf(),
    ensures
        overlap(l, r) == overlap(r, l),
        union_weight(l, r) == union_weight(r, l),
{
    let n = l.tokens.key_seq().len() as int;
    let m = r.tokens.key_seq().len() as int;
    lemma_shared_is_grid(l.tokens, r.tokens, n);
    lemma_shared_is_grid(r.tokens, l.tokens, m);
    lemma_grid_transposed(l.tokens, r.tokens, n, m);
}

proof fn lemma_shared_within(l: TextMap<u128>, r: Map<Seq<char>, u128>, n: int)
    requires
        l.wf(),
        0 <= n <= l.key_seq().len(),
    ensures
        shared_weight(l, r, n) <= sum_of(l.value_seq().take(n)),
    decreases n,
{
    if n > 0 {
        lemma_shared_within(l, r, n - 1);
        assert(l.value_seq().take(n).drop_last() =~= l.value_seq().take(n - 1));
    }
}

/// Two folders share no more than either of them weighs, so that the ratio of
/// a match never exceeds one.
pub proof fn law_overlap_bounded(l: FolderSignature, r: FolderSignature)
    requires
        l.wf(),
        r.wf(),
    ensures
        overlap(l, r) <= l.total_weight,
        overlap(l, r) <= r.total_weight,
        overlap(l, r) <= union_weight(l, r),
{
    law_overlap_symmetric(l, r);
    let n = l.tokens.key_seq().len() as int;
    let m = r.tokens.key_seq().len() as int;
    lemma_shared_within(l.tokens, r.tokens@, n);
    lemma_shared_within(r.tokens, l.tokens@, m);
    assert(l.tokens.value_seq().take(n) =~= l.tokens.value_seq());
    assert(r.tokens.value_seq().take(m) =~= r.tokens.value_seq());
}

proof fn lemma_shared_with_itself(l: TextMap<u128>, n: int)
    requires
        l.wf(),
        0 <= n <= l.key_seq().len(),
    ensures
        shared_weight(l, l@, n) == sum_of(l.value_seq().take(n)),
    decreases n,
{
    if n > 0 {
        lemma_shared_with_itself(l, n - 1);
        assert(l.value_seq().take(n).drop_last() =~= l.value_seq().take(n - 1));
        l.lemma_entries();
        assert(l@[l.key_seq()[n - 1]] == l.value_seq()[n - 1]);
    }
}

/// A folder shares all its weight with itself.
pub proof fn law_overlap_with_itself(l: FolderSignature)
    requires
        l.wf(),
    ensures
        overlap(l, l) == l.total_weight,
        union_weight(l, l) == l.total_weight,
{
    let n = l.tokens.key_seq().len() as int;
    lemma_shared_with_itself(l.tokens, n);
    assert(l.tokens.value_seq().take(n) =~= l.tokens.value_seq());
}

/// A match that is no less close than another, and shares no fewer tokens of any
/// kind, is no less sure.
pub proof fn law_confidence_grows(a: DossierMatch, b: DossierMatch)
    requires
        a.overlap_ratio.wf(),
        b.overlap_ratio.wf(),
        !b.overlap_ratio.lt(&a.overlap_ratio),
        a.shared_hash_count <= b.shared_hash_count,
        a.shared_normalized_file_name_count <= b.shared_normalized_file_name_count,
        a.shared_normalized_parent_folder_count <= b.shared_normalized_parent_folder_count,
        a.shared_file_ext_count <= b.shared_file_ext_count,
        a.shared_ext_stem_count <= b.shared_ext_stem_count,
        a.shared_rel_file_count <= b.shared_rel_file_count,
        a.shared_folder_token_count <= b.shared_folder_token_count,
    ensures
        confidence_of(a).level() <= confidence_of(b).level(),
{
    if !a.overlap_ratio.lt(&(Ratio { num: 4, den: 5 })) {
        lemma_lt_negatively_transitive(
            b.overlap_ratio,
            a.overlap_ratio,
            Ratio { num: 4, den: 5 },
        );
    }
    if !a.overlap_ratio.lt(&(Ratio { num: 7, den: 20 })) {
        lemma_lt_negatively_transitive(
            b.overlap_ratio,
            a.overlap_ratio,
            Ratio { num: 7, den: 20 },
        );
    }
    if !a.overlap_ratio.lt(&(Ratio { num: 3, den: 20 })) {
        lemma_lt_negatively_transitive(
            b.overlap_ratio,
            a.overlap_ratio,
            Ratio { num: 3, den: 20 },
        );
    }
}

/// The place of the right folder `j` among the matches of a left folder.
spec fn rank_at(l: FolderSignature, right: TextMap<FolderSignature>, j: int) -> Rank {
    rank_of(l, right.value_seq()[j], right.key_seq()[j])
}

proof fn lemma_rank_is_wf(l: FolderSignature, right: TextMap<FolderSignature>, j: int)
    requires
        l.wf(),
        sound(right),
        0 <= j < right.key_seq().len(),
        may_match(l, right.value_seq()[j]),
    ensures
        rank_at(l, right, j).wf(),
{
    law_overlap_bounded(l, right.value_seq()[j]);
}

/// Of two matches of a left folder, the lower one has more above it.
proof fn lemma_lower_has_more_above(
    l: FolderSignature,
    right: TextMap<FolderSignature>,
    high: int,
    low: int,
)
    requires
        l.wf(),
        sound(right),
        0 <= high < right.key_seq().len(),
        0 <= low < right.key_seq().len(),
        may_match(l, right.value_seq()[high]),
        may_match(l, right.value_seq()[low]),
        rank_at(l, right, high).above(rank_at(l, right, low)),
    ensures
        better(l, right, high).len() < better(l, right, low).len(),
{
    let a = better(l, right, high);
    let b = better(l, right, low);
    lemma_better_is_finite(l, right, high);
    lemma_better_is_finite(l, right, low);
    lemma_above_asymmetric(rank_at(l, right, high), rank_at(l, right, low));
    assert forall|k: int| a.contains(k) implies b.contains(k) by {
        lemma_rank_is_wf(l, right, k);
        lemma_rank_is_wf(l, right, high);
        lemma_rank_is_wf(l, right, low);
        let top = rank_at(l, right, k);
        let mid = rank_at(l, right, high);
        let end = rank_at(l, right, low);
        lemma_above_asymmetric(top, mid);
        if !top.above(end) {
            lemma_above_negatively_transitive(end, top, mid);
        }
    }
    assert(b.contains(high));
    assert(!a.contains(high)) by {
        if a.contains(high) {
            lemma_above_asymmetric(rank_at(l, right, high), rank_at(l, right, high));
        }
    }
    assert(a.insert(high).subset_of(b));
    lemma_len_subset(a.insert(high), b);
}

proof fn lemma_better_is_finite(l: FolderSignature, right: TextMap<FolderSignature>, j: int)
    ensures
        better(l, right, j).finite(),
{
    let all = set_int_range(0, right.key_seq().len() as int);
    lemma_int_range(0, right.key_seq().len() as int);
    assert(better(l, right, j).subset_of(all));
    lemma_len_subset(better(l, right, j), all);
}

/// No left folder has more than `top_k` matches.
pub proof fn law_at_most_top_k(
    l: FolderSignature,
    right: TextMap<FolderSignature>,
    top_k: nat,
    matched: Set<int>,
)
    requires
        l.wf(),
        sound(right),
        matched.finite(),
        forall|j: int| #[trigger] matched.contains(j) ==> chosen(l, right, j, top_k),
    ensures
        matched.len() <= top_k,
{
    if matched.len() > 0 {
        let j = lemma_lowest(l, right, matched);
        lemma_better_is_finite(l, right, j);
        let others = matched.remove(j);
        assert forall|k: int| others.contains(k) implies better(l, right, j).contains(k) by {
            assert(chosen(l, right, k, top_k));
            assert(chosen(l, right, j, top_k));
            lemma_rank_is_wf(l, right, k);
            lemma_rank_is_wf(l, right, j);
            right.lemma_entries();
            lemma_ascending_distinct(right.key_seq());
            assert(right.key_seq()[k] != right.key_seq()[j]);
            lemma_above_total(rank_at(l, right, k), rank_at(l, right, j));
            if rank_at(l, right, j).above(rank_at(l, right, k)) {
                lemma_lower_has_more_above(l, right, j, k);
            }
        }
        lemma_len_subset(others, better(l, right, j));
    }
}

/// A match with the most above it.
proof fn lemma_lowest(
    l: FolderSignature,
    right: TextMap<FolderSignature>,
    matched: Set<int>,
) -> (j: int)
    requires
        matched.finite(),
        matched.len() > 0,
    ensures
        matched.contains(j),
        forall|k: int|
            #[trigger] matched.contains(k) ==> better(l, right, k).len() <= better(
                l,
                right,
                j,
            ).len(),
    decreases matched.len(),
{
    let first = matched.choose();
    let others = matched.remove(first);
    if others.len() == 0 {
        assert forall|k: int| #[trigger] matched.contains(k) implies k == first by {
            if k != first {
                assert(others.contains(k));
                lemma_set_empty_equivalency_len(others);
            }
        }
        first
    } else {
        let j = lemma_lowest(l, right, others);
        if better(l, right, j).len() >= better(l, right, first).len() {
            assert forall|k: int| #[trigger] matched.contains(k) implies better(
                l,
                right,
                k,
            ).len() <= better(l, right, j).len() by {
                assert(k == first || others.contains(k));
            }
            j
        } else {
            assert forall|k: int| #[trigger] matched.contains(k) implies better(
                l,
                right,
                k,
            ).len() <= better(l, right, first).len() by {
                assert(k == first || others.contains(k));
            }
            first
        }
    }
}

/// How sure a match is, by its overlap and what it shares: each tier asks for a
/// part of the weights, four fifths, seven twentieths or three twentieths, and
/// for what goes with it.
pub proof fn law_tiers_ask_for_overlap(m: DossierMatch)
    requires
        m.overlap_ratio.den > 0,
    ensures
        confidence_of(m) == DossierConfidenceTier::Identical <==> 5 * m.overlap_ratio.num >= 4
            * m.overlap_ratio.den && m.shared_hash_count >= 2 && m.shared_normalized_file_name_count
            >= 1,
        confidence_of(m) == DossierConfidenceTier::Similar <==> 20 * m.overlap_ratio.num >= 7
            * m.overlap_ratio.den && (m.shared_hash_count >= 1
            || m.shared_normalized_parent_folder_count >= 1) && (5 * m.overlap_ratio.num < 4
            * m.overlap_ratio.den || m.shared_hash_count < 2 || m.shared_normalized_file_name_count
            < 1),
        confidence_of(m) == DossierConfidenceTier::Possible <==> 20 * m.overlap_ratio.num >= 3
            * m.overlap_ratio.den && (m.shared_file_ext_count > 0 || m.shared_ext_stem_count > 0
            || m.shared_rel_file_count > 0 || m.shared_hash_count > 0
            || m.shared_folder_token_count > 0 || m.shared_normalized_parent_folder_count > 0) && (
        20 * m.overlap_ratio.num < 7 * m.overlap_ratio.den || (m.shared_hash_count < 1
            && m.shared_normalized_parent_folder_count < 1)),
        20 * m.overlap_ratio.num < 3 * m.overlap_ratio.den ==> confidence_of(m)
            == DossierConfidenceTier::Manual,
{
}

/// What a tier is called, what it advises, and which is surer than which.
pub proof fn law_tiers_have_names()
    ensures
        DossierConfidenceTier::Identical.name() == "identical"@,
        DossierConfidenceTier::Similar.name() == "similar"@,
        DossierConfidenceTier::Possible.name() == "possible"@,
        DossierConfidenceTier::Manual.name() == "manual"@,
        DossierConfidenceTier::Manual.level() < DossierConfidenceTier::Possible.level(),
        DossierConfidenceTier::Possible.level() < DossierConfidenceTier::Similar.level(),
        DossierConfidenceTier::Similar.level() < DossierConfidenceTier::Identical.level(),
{
}

/// Of two folders that may match a left folder, the one that shares the greater
/// part of what the two weigh together is chosen first; and where the parts are
/// equal, the one that shares the greater weight.
pub proof fn law_closer_is_chosen_first(
    l: FolderSignature,
    right: TextMap<FolderSignature>,
    high: int,
    low: int,
    top_k: nat,
)
    requires
        l.wf(),
        sound(right),
        0 <= high < right.key_seq().len(),
        overlap(l, right.value_seq()[high]) > 0,
        chosen(l, right, low, top_k),
        ({
            let a = overlap(l, right.value_seq()[high]);
            let b = overlap(l, right.value_seq()[low]);
            let whole_a = l.total_weight + right.value_seq()[high].total_weight - a;
            let whole_b = l.total_weight + right.value_seq()[low].total_weight - b;
            a * whole_b > b * whole_a || a * whole_b == b * whole_a && a > b
        }),
    ensures
        chosen(l, right, high, top_k),
{
    let r = right.value_seq()[high];
    let s = right.value_seq()[low];
    law_overlap_bounded(l, r);
    law_overlap_bounded(l, s);
    lemma_lower_has_more_above(l, right, high, low);
}

/// Where there is room for all of them, every folder that shares anything with
/// a left folder is chosen; and one that shares nothing never is.
pub proof fn law_all_that_share_are_chosen(
    l: FolderSignature,
    right: TextMap<FolderSignature>,
    j: int,
    top_k: nat,
)
    requires
        l.wf(),
        sound(right),
        0 <= j < right.key_seq().len(),
    ensures
        overlap(l, right.value_seq()[j]) == 0 ==> !chosen(l, right, j, top_k),
        overlap(l, right.value_seq()[j]) > 0 && top_k >= right.key_seq().len() ==> chosen(
            l,
            right,
            j,
            top_k,
        ),
{
    let r = right.value_seq()[j];
    law_overlap_bounded(l, r);
    if overlap(l, r) > 0 {
        let n = right.key_seq().len() as int;
        let all = set_int_range(0, n);
        let above = better(l, right, j);
        lemma_int_range(0, n);
        lemma_better_is_finite(l, right, j);
        assert(!above.contains(j)) by {
            if above.contains(j) {
                lemma_above_asymmetric(rank_at(l, right, j), rank_at(l, right, j));
            }
        }
        assert(above.insert(j).subset_of(all));
        lemma_len_subset(above.insert(j), all);
    }
}

/// Of the matches that are listed, those of a left folder stand together, the
/// left folders in the order of their names; and among them the closer stands
/// first, at equal ratios the one that shares more.
pub proof fn law_closer_is_listed_first(r: Seq<DossierMatch>, p: int, q: int)
    requires
        in_order(r),
        0 <= p < q < r.len(),
    ensures
        r[p].left_folder@ == r[q].left_folder@ || text_lt(r[p].left_folder@, r[q].left_folder@),
        r[p].left_folder@ == r[q].left_folder@ ==> r[p].overlap_ratio.num * r[q].overlap_ratio.den
            >= r[q].overlap_ratio.num * r[p].overlap_ratio.den,
        r[p].left_folder@ == r[q].left_folder@ && r[p].overlap_ratio.num * r[q].overlap_ratio.den
            == r[q].overlap_ratio.num * r[p].overlap_ratio.den ==> r[p].overlap_weight
            >= r[q].overlap_weight,
{
    lemma_text_lt_total(r[p].left_folder@, r[q].left_folder@);
    assert(!r[q].before(&r[p]));
}

/// Of two folders that share as much, in part and in weight, the one that shares
/// more file names with the left folder is chosen first.
pub proof fn law_more_names_are_chosen_first(
    l: FolderSignature,
    right: TextMap<FolderSignature>,
    high: int,
    low: int,
    top_k: nat,
)
    requires
        l.wf(),
        sound(right),
        0 <= high < right.key_seq().len(),
        chosen(l, right, low, top_k),
        overlap(l, right.value_seq()[high]) == overlap(l, right.value_seq()[low]),
        right.value_seq()[high].total_weight == right.value_seq()[low].total_weight,
        shared_in(l, right.value_seq()[high], DossierTokenFamily::ExactFileName) > shared_in(
            l,
            right.value_seq()[low],
            DossierTokenFamily::ExactFileName,
        ),
    ensures
        chosen(l, right, high, top_k),
{
    let r = right.value_seq()[high];
    let s = right.value_seq()[low];
    law_overlap_bounded(l, r);
    law_overlap_bounded(l, s);
    let a = rank_values(l, r);
    let b = rank_values(l, s);
    assert(a[0] == b[0]);
    assert(a.drop_first()[0] == a[1]);
    assert(b.drop_first()[0] == b[1]);
    assert(exceeds(a.drop_first(), b.drop_first()));
    assert(exceeds(a, b));
    lemma_lower_has_more_above(l, right, high, low);
}

/// Of two folders that share the same in everything, the one whose name comes
/// later is chosen first.
pub proof fn law_later_name_is_chosen_first(
    l: FolderSignature,
    right: TextMap<FolderSignature>,
    high: int,
    low: int,
    top_k: nat,
)
    requires
        l.wf(),
        sound(right),
        0 <= high < right.key_seq().len(),
        chosen(l, right, low, top_k),
        right.value_seq()[high].tokens == right.value_seq()[low].tokens,
        right.value_seq()[high].total_weight == right.value_seq()[low].total_weight,
        text_lt(right.key_seq()[low], right.key_seq()[high]),
    ensures
        chosen(l, right, high, top_k),
{
    let r = right.value_seq()[high];
    let s = right.value_seq()[low];
    law_overlap_bounded(l, r);
    law_overlap_bounded(l, s);
    assert(rank_values(l, r) =~= rank_values(l, s));
    lemma_lower_has_more_above(l, right, high, low);
}

/// Where there is room for all of them, each two folders that share anything are
/// listed as a match, with the folders' names and what they share.
pub proof fn law_all_that_share_are_listed(
    r: Seq<DossierMatch>,
    left: TextMap<FolderSignature>,
    right: TextMap<FolderSignature>,
    top_k: nat,
    i: int,
    j: int,
)
    requires
        are_best_matches(r, left, right, top_k),
        sound(left),
        sound(right),
        0 <= i < left.key_seq().len(),
        0 <= j < right.key_seq().len(),
        top_k >= right.key_seq().len(),
        overlap(left.value_seq()[i], right.value_seq()[j]) > 0,
    ensures
        exists|p: int|
            0 <= p < r.len() && (#[trigger] r[p]).left_folder@ == left.key_seq()[i]
                && r[p].right_folder@ == right.key_seq()[j] && r[p].overlap_weight == overlap(
                left.value_seq()[i],
                right.value_seq()[j],
            ),
{
    left.lemma_entries();
    assert(left.value_seq()[i].wf());
    law_all_that_share_are_chosen(left.value_seq()[i], right, j, top_k);
    assert(chosen_pair(left, i, right, j, top_k));
    let p = choose|p: int| 0 <= p < r.len() && tells_pair(#[trigger] r[p], left, i, right, j);
    assert(r[p].left_folder@ == left.key_seq()[i]);
}

/// Of two lists of numbers the one that is greater in the first place where they
/// differ comes first.
pub proof fn law_first_difference_decides(a: Seq<nat>, b: Seq<nat>, k: int)
    requires
        a.len() == b.len(),
        0 <= k < a.len(),
        forall|i: int| 0 <= i < k ==> a[i] == b[i],
        a[k] > b[k],
    ensures
        exceeds(a, b),
        !exceeds(b, a),
    decreases k,
{
    if k > 0 {
        law_first_difference_decides(a.drop_first(), b.drop_first(), k - 1);
    }
}

/// Where two folders share as much in part and in weight, they are ranked by the
/// names that they share, then by the hashes, the signatures of archives, the
/// normal names, and so on down to the folders.
pub proof fn law_what_folders_are_ranked_by(l: FolderSignature, r: FolderSignature)
    ensures
        ({
            let v = rank_values(l, r);
            &&& v.len() == 24
            &&& v[0] == overlap(l, r)
            &&& v[1] == shared_in(l, r, DossierTokenFamily::ExactFileName)
            &&& v[2] == overlap_in(l, r, DossierTokenFamily::ExactFileName)
            &&& v[4] == overlap_in(l, r, DossierTokenFamily::Hash)
            &&& v[5] == shared_in(l, r, DossierTokenFamily::Hash)
            &&& v[6] == overlap_in(l, r, DossierTokenFamily::ArchiveSignature)
            &&& v[8] == overlap_in(l, r, DossierTokenFamily::NormalizedFileName)
            &&& v[10] == overlap_in(l, r, DossierTokenFamily::Binaryity)
            &&& v[12] == overlap_in(l, r, DossierTokenFamily::ArchiveFamily)
            &&& v[14] == overlap_in(l, r, DossierTokenFamily::Language)
            &&& v[16] == overlap_in(l, r, DossierTokenFamily::SizeClass)
            &&& v[18] == overlap_in(l, r, DossierTokenFamily::NormalizedFolder)
            &&& v[20] == overlap_in(l, r, DossierTokenFamily::FileExtension)
            &&& v[21] == overlap_in(l, r, DossierTokenFamily::ExtensionStem)
            &&& v[22] == overlap_in(l, r, DossierTokenFamily::FileStem)
            &&& v[23] == overlap_in(l, r, DossierTokenFamily::Folder)
        }),
{
}

} // verus!
