//! Dossier reports: the matches that are asked for, their counts, and the
//! tables that they are written to.

use crate::cache::{
    counts_usage, profile_cache_usage, share, share_of, CacheUsageCounters,
};
use crate::csv::{csv_field, csv_row, push_cell, push_field, push_row};
use crate::dossier::{
    are_signatures, build_folder_signatures_with_profiles, folder_bytes, sound, FolderSignature,
    MAX_FOLDER_WEIGHT,
};
use crate::filter::{lemma_filter_start, lemma_filter_step};
use crate::fingerprint::FileFingerprintProfile;
use crate::matching::{
    are_best_matches, build_dossier_matches, chosen_pair, is_best_match, tells_pair, DossierAction,
    DossierConfidenceCounts, DossierConfidenceTier, DossierMatch,
};
use crate::matching_laws::law_overlap_bounded;
use crate::number::{decimal, decimal_chars, fixed, fixed_chars};
use crate::policy::{excluded, should_exclude_path, ExcludePolicy};
use crate::ratio::{nearest, round, Ratio};
use crate::record::FileRecord;
use crate::text::{char_texts, extend, extend_str, from_chars, same, texts, to_chars};
use crate::textmap::TextMap;
use vstd::prelude::*;

verus! {

// ---------------------------------------------------------------------------
// Choosing among the matches
// ---------------------------------------------------------------------------

/// Which matches of a dossier are asked for.
#[derive(Clone, Copy, Debug, PartialEq, Eq, Structural)]
pub struct DossierOptions {
    pub top_k: usize,
    pub min_confidence: DossierConfidenceTier,
    pub only_action: Option<DossierAction>,
    pub one_per_left: bool,
}

/// The action that a tier calls for.
pub open spec fn action_of(tier: DossierConfidenceTier) -> DossierAction {
    match tier {
        DossierConfidenceTier::Identical => DossierAction::Apply,
        DossierConfidenceTier::Manual => DossierAction::Manual,
        _ => DossierAction::Review,
    }
}

/// Whether a match is sure enough and calls for the action asked for.
pub open spec fn is_asked_for(m: DossierMatch, options: DossierOptions) -> bool {
    m.confidence_tier.level() >= options.min_confidence.level() && match options.only_action {
        Some(action) => action_of(m.confidence_tier) == action,
        None => true,
    }
}

/// Whether one of the matches is of a left folder.
pub open spec fn has_left(matches: Seq<DossierMatch>, folder: Seq<char>) -> bool {
    exists|i: int| 0 <= i < matches.len() && (#[trigger] matches[i]).left_folder@ == folder
}

/// The first match of each left folder.
pub open spec fn first_of_each(matches: Seq<DossierMatch>) -> Seq<DossierMatch>
    decreases matches.len(),
{
    if matches.len() == 0 {
        Seq::empty()
    } else {
        let init = first_of_each(matches.drop_last());
        if has_left(matches.drop_last(), matches.last().left_folder@) {
            init
        } else {
            init.push(matches.last())
        }
    }
}

/// Of the matches of each left folder one is kept, and none of a folder that had
/// none.
pub proof fn law_one_per_left(matches: Seq<DossierMatch>)
    ensures
        forall|i: int, j: int|
            0 <= i < j < first_of_each(matches).len() ==> (#[trigger] first_of_each(
                matches,
            )[i]).left_folder@ != (#[trigger] first_of_each(matches)[j]).left_folder@,
        forall|f: Seq<char>|
            has_left(matches, f) <==> #[trigger] has_left(first_of_each(matches), f),
    decreases matches.len(),
{
    if matches.len() > 0 {
        let init = matches.drop_last();
        let last = matches.last();
        let kept = first_of_each(init);
        let all = first_of_each(matches);
        law_one_per_left(init);
        assert forall|f: Seq<char>| has_left(matches, f) <==> #[trigger] has_left(all, f) by {
            assert(has_left(init, f) <==> has_left(kept, f));
            assert(has_left(matches, f) <==> has_left(init, f) || last.left_folder@ == f) by {
                if has_left(init, f) {
                    let i = choose|i: int|
                        0 <= i < init.len() && (#[trigger] init[i]).left_folder@ == f;
                    assert(matches[i].left_folder@ == f);
                }
                if last.left_folder@ == f {
                    assert(matches[matches.len() - 1].left_folder@ == f);
                }
                if has_left(matches, f) && last.left_folder@ != f {
                    let i = choose|i: int|
                        0 <= i < matches.len() && (#[trigger] matches[i]).left_folder@ == f;
                    assert(init[i].left_folder@ == f);
                }
            }
            if !has_left(init, last.left_folder@) {
                if has_left(kept, f) {
                    let i = choose|i: int|
                        0 <= i < kept.len() && (#[trigger] kept[i]).left_folder@ == f;
                    assert(all[i].left_folder@ == f);
                }
                if last.left_folder@ == f {
                    assert(all[all.len() - 1].left_folder@ == f);
                }
                if has_left(all, f) && last.left_folder@ != f {
                    let i = choose|i: int|
                        0 <= i < all.len() && (#[trigger] all[i]).left_folder@ == f;
                    assert(kept[i].left_folder@ == f);
                }
            }
        }
        if !has_left(init, last.left_folder@) {
            assert(!has_left(kept, last.left_folder@));
            assert forall|i: int, j: int| 0 <= i < j < all.len() implies (
            #[trigger] all[i]).left_folder@ != (#[trigger] all[j]).left_folder@ by {
                assert(all[i] == kept[i]);
                if j < kept.len() {
                    assert(all[j] == kept[j]);
                }
            }
        }
    }
}

/// The matches that are asked for.
pub open spec fn selected(matches: Seq<DossierMatch>, options: DossierOptions) -> Seq<
    DossierMatch,
> {
    let asked = matches.filter(|m: DossierMatch| is_asked_for(m, options));
    if options.one_per_left {
        first_of_each(asked)
    } else {
        asked
    }
}

impl DossierMatch {
    pub fn copy(&self) -> (r: Self)
        ensures
            r == *self,
    {
        DossierMatch {
            left_folder: self.left_folder.clone(),
            right_folder: self.right_folder.clone(),
            overlap_weight: self.overlap_weight,
            left_weight: self.left_weight,
            right_weight: self.right_weight,
            overlap_ratio: self.overlap_ratio,
            shared_rel_file_count: self.shared_rel_file_count,
            shared_exact_file_name_count: self.shared_exact_file_name_count,
            shared_normalized_file_name_count: self.shared_normalized_file_name_count,
            shared_file_stem_count: self.shared_file_stem_count,
            shared_file_ext_count: self.shared_file_ext_count,
            shared_ext_stem_count: self.shared_ext_stem_count,
            shared_hash_count: self.shared_hash_count,
            shared_folder_token_count: self.shared_folder_token_count,
            shared_normalized_parent_folder_count: self.shared_normalized_parent_folder_count,
            shared_binaryity_count: self.shared_binaryity_count,
            shared_archive_family_count: self.shared_archive_family_count,
            shared_language_count: self.shared_language_count,
            shared_size_class_count: self.shared_size_class_count,
            confidence_tier: self.confidence_tier,
        }
    }
}

pub fn keep_top_candidate_per_left(matches: &Vec<DossierMatch>) -> (r: Vec<DossierMatch>)
    ensures
        r@ == first_of_each(matches@),
{
    let mut r: Vec<DossierMatch> = Vec::new();
    let mut i: usize = 0;
    while i < matches.len()
        invariant
            i <= matches@.len(),
            r@ == first_of_each(matches@.take(i as int)),
            forall|k: int|
                0 <= k < r@.len() ==> has_left(
                    matches@.take(i as int),
                    (#[trigger] r@[k]).left_folder@,
                ),
            forall|f: Seq<char>|
                #[trigger] has_left(matches@.take(i as int), f) ==> has_left(r@, f),
        decreases matches@.len() - i,
    {
        let item = &matches[i];
        let ghost before = matches@.take(i as int);
        let ghost after = matches@.take(i as int + 1);
        proof {
            assert(after.drop_last() =~= before);
            assert(after.last() == *item);
        }
        let mut seen = false;
        let mut k: usize = 0;
        while k < r.len() && !seen
            invariant
                k <= r@.len(),
                seen ==> has_left(r@, item.left_folder@),
                !seen ==> forall|m: int|
                    0 <= m < k ==> (#[trigger] r@[m]).left_folder@ != item.left_folder@,
            decreases r@.len() - k + (if seen { 0int } else { 1int }),
        {
            if same(r[k].left_folder.as_str(), item.left_folder.as_str()) {
                assert(r@[k as int].left_folder@ == item.left_folder@);
                seen = true;
            } else {
                k = k + 1;
            }
        }
        let ghost held = r@;
        proof {
            // What is held stands for all matches so far.
            if seen {
                let m = choose|m: int|
                    0 <= m < r@.len() && (#[trigger] r@[m]).left_folder@ == item.left_folder@;
                assert(has_left(before, r@[m].left_folder@));
            } else {
                assert(!has_left(r@, item.left_folder@));
            }
            assert(seen == has_left(before, item.left_folder@));
        }
        if !seen {
            r.push(item.copy());
        }
        proof {
            assert forall|f: Seq<char>| #[trigger] has_left(after, f) implies has_left(r@, f) by {
                let m = choose|m: int|
                    0 <= m < after.len() && (#[trigger] after[m]).left_folder@ == f;
                if m < i {
                    assert(before[m].left_folder@ == f);
                    assert(has_left(before, f));
                    let q = choose|q: int|
                        0 <= q < held.len() && (#[trigger] held[q]).left_folder@ == f;
                    assert(r@[q].left_folder@ == f);
                } else if !seen {
                    assert(r@[held.len() as int].left_folder@ == f);
                }
            }
            assert forall|k: int| 0 <= k < r@.len() implies has_left(
                after,
                (#[trigger] r@[k]).left_folder@,
            ) by {
                if k < held.len() {
                    assert(held[k] == r@[k]);
                    let m = choose|m: int|
                        0 <= m < before.len() && (#[trigger] before[m]).left_folder@
                            == held[k].left_folder@;
                    assert(after[m].left_folder@ == r@[k].left_folder@);
                } else {
                    assert(after[i as int].left_folder@ == r@[k].left_folder@);
                }
            }
        }
        i = i + 1;
    }
    assert(matches@.take(i as int) =~= matches@);
    r
}

/// The matches that are asked for.
pub fn select_matches(matches: &Vec<DossierMatch>, options: &DossierOptions) -> (r: Vec<
    DossierMatch,
>)
    ensures
        r@ == selected(matches@, *options),
{
    let ghost keep = |m: DossierMatch| is_asked_for(m, *options);
    let mut asked: Vec<DossierMatch> = Vec::new();
    let mut i: usize = 0;
    proof {
        lemma_filter_start(matches@, keep);
    }
    while i < matches.len()
        invariant
            i <= matches@.len(),
            keep == (|m: DossierMatch| is_asked_for(m, *options)),
            asked@ == matches@.take(i as int).filter(keep),
        decreases matches@.len() - i,
    {
        let item = &matches[i];
        proof {
            lemma_filter_step(matches@, keep, i as int);
        }
        let acts = match options.only_action {
            Some(action) => item.confidence_tier.action() == action,
            None => true,
        };
        if item.confidence_tier.should_emit(options.min_confidence) && acts {
            asked.push(item.copy());
        }
        i = i + 1;
    }
    assert(matches@.take(i as int) =~= matches@);
    if options.one_per_left {
        keep_top_candidate_per_left(&asked)
    } else {
        asked
    }
}

// ---------------------------------------------------------------------------
// Counting
// ---------------------------------------------------------------------------

/// The number of matches of a tier.
pub open spec fn count_tier(matches: Seq<DossierMatch>, tier: DossierConfidenceTier) -> nat
    decreases matches.len(),
{
    if matches.len() == 0 {
        0
    } else {
        count_tier(matches.drop_last(), tier) + (if matches.last().confidence_tier == tier {
            1nat
        } else {
            0nat
        })
    }
}

/// The number of matches that share an archive family.
pub open spec fn count_archive(matches: Seq<DossierMatch>) -> nat
    decreases matches.len(),
{
    if matches.len() == 0 {
        0
    } else {
        count_archive(matches.drop_last()) + (if matches.last().shared_archive_family_count > 0 {
            1nat
        } else {
            0nat
        })
    }
}

/// The matches by their tiers.
pub fn count_tiers(matches: &Vec<DossierMatch>) -> (r: DossierConfidenceCounts)
    ensures
        forall|tier: DossierConfidenceTier|
            #[trigger] r.count(tier) == count_tier(matches@, tier),
{
    let mut r = DossierConfidenceCounts::new();
    let mut i: usize = 0;
    proof {
        assert forall|tier: DossierConfidenceTier| #[trigger] r.count(tier) == count_tier(
            matches@.take(0),
            tier,
        ) by {}
    }
    while i < matches.len()
        invariant
            i <= matches.len(),
            forall|tier: DossierConfidenceTier|
                #[trigger] r.count(tier) == count_tier(matches@.take(i as int), tier),
            forall|tier: DossierConfidenceTier| #[trigger] r.count(tier) <= i,
        decreases matches@.len() - i,
    {
        let tier = matches[i].confidence_tier;
        assert(r.count(tier) <= i);
        proof {
            assert(matches@.take(i as int + 1).drop_last() =~= matches@.take(i as int));
        }
        r.bump(tier);
        i = i + 1;
    }
    assert(matches@.take(i as int) =~= matches@);
    r
}

/// The number of matches that share an archive family.
pub fn count_archive_signals(matches: &Vec<DossierMatch>) -> (r: usize)
    ensures
        r == count_archive(matches@),
        r <= matches@.len(),
{
    let mut r: usize = 0;
    let mut i: usize = 0;
    while i < matches.len()
        invariant
            i <= matches.len(),
            r <= i,
            r == count_archive(matches@.take(i as int)),
        decreases matches@.len() - i,
    {
        assert(matches@.take(i as int + 1).drop_last() =~= matches@.take(i as int));
        if matches[i].shared_archive_family_count > 0 {
            r = r + 1;
        }
        i = i + 1;
    }
    assert(matches@.take(i as int) =~= matches@);
    r
}

// ---------------------------------------------------------------------------
// Reports
// ---------------------------------------------------------------------------

/// The rows that a policy lets through.
pub open spec fn rows_kept(rows: Seq<FileRecord>, policy: ExcludePolicy) -> Seq<FileRecord> {
    rows.filter(|row: FileRecord| !excluded(row.rel_path@, policy))
}

pub fn keep_rows(rows: &Vec<FileRecord>, policy: &ExcludePolicy) -> (r: Vec<FileRecord>)
    requires
        policy.wf(),
    ensures
        r@ == rows_kept(rows@, *policy),
{
    let ghost keep = |row: FileRecord| !excluded(row.rel_path@, *policy);
    let mut r: Vec<FileRecord> = Vec::new();
    let mut i: usize = 0;
    proof {
        lemma_filter_start(rows@, keep);
    }
    while i < rows.len()
        invariant
            policy.wf(),
            i <= rows@.len(),
            keep == (|row: FileRecord| !excluded(row.rel_path@, *policy)),
            r@ == rows@.take(i as int).filter(keep),
        decreases rows@.len() - i,
    {
        proof {
            lemma_filter_step(rows@, keep, i as int);
        }
        if !should_exclude_path(rows[i].rel_path.as_str(), policy) {
            r.push(rows[i].copy());
        }
        i = i + 1;
    }
    assert(rows@.take(i as int) =~= rows@);
    r
}

/// What a dossier of two trees says.
pub struct Dossier {
    pub report_schema: String,
    pub report_version: u32,
    pub left_folder_count: usize,
    pub right_folder_count: usize,
    pub archive_signal_candidates: usize,
    pub archive_signal_ratio: Ratio,
    pub left_profile_cache: CacheUsageCounters,
    pub right_profile_cache: CacheUsageCounters,
    pub confidence_counts: DossierConfidenceCounts,
    pub candidates: Vec<DossierMatch>,
}

/// Whether matches are the asked ones of the best matches of two trees.
pub open spec fn are_asked_matches(
    candidates: Seq<DossierMatch>,
    left: TextMap<FolderSignature>,
    right: TextMap<FolderSignature>,
    options: DossierOptions,
) -> bool {
    exists|all: Seq<DossierMatch>|
        #[trigger] are_best_matches(all, left, right, options.top_k as nat) && candidates
            == selected(all, options)
}

/// Whether folders are those of two trees, and matches the asked ones among them.
pub open spec fn dossier_of(
    d: Dossier,
    left: TextMap<FolderSignature>,
    right: TextMap<FolderSignature>,
    options: DossierOptions,
) -> bool {
    &&& d.left_folder_count == left.key_seq().len()
    &&& d.right_folder_count == right.key_seq().len()
    &&& are_asked_matches(d.candidates@, left, right, options)
}

/// The dossier of two trees.
pub fn build_dossier(
    left_rows: &Vec<FileRecord>,
    right_rows: &Vec<FileRecord>,
    left_profiles: &TextMap<FileFingerprintProfile>,
    right_profiles: &TextMap<FileFingerprintProfile>,
    policy: &ExcludePolicy,
    options: &DossierOptions,
) -> (r: Dossier)
    requires
        policy.wf(),
        left_profiles.wf(),
        right_profiles.wf(),
        forall|f: Seq<char>|
            #[trigger] folder_bytes(
                rows_kept(left_rows@, *policy),
                rows_kept(left_rows@, *policy).len() as int,
                f,
            ) <= u64::MAX,
        forall|f: Seq<char>|
            #[trigger] folder_bytes(
                rows_kept(right_rows@, *policy),
                rows_kept(right_rows@, *policy).len() as int,
                f,
            ) <= u64::MAX,
    ensures
        r.report_schema@ == "nightindex.dossier"@,
        r.report_version == 1,
        counts_usage(r.left_profile_cache, rows_kept(left_rows@, *policy), left_profiles@),
        counts_usage(r.right_profile_cache, rows_kept(right_rows@, *policy), right_profiles@),
        exists|left: TextMap<FolderSignature>, right: TextMap<FolderSignature>|
            are_signatures(left, rows_kept(left_rows@, *policy), left_profiles@) && are_signatures(
                right,
                rows_kept(right_rows@, *policy),
                right_profiles@,
            ) && #[trigger] dossier_of(r, left, right, *options),
        forall|tier: DossierConfidenceTier|
            #[trigger] r.confidence_counts.count(tier) == count_tier(r.candidates@, tier),
        r.archive_signal_candidates == count_archive(r.candidates@),
        r.archive_signal_ratio == share(r.archive_signal_candidates, r.candidates@.len() as usize),
        forall|i: int| 0 <= i < r.candidates@.len() ==> in_range(#[trigger] r.candidates@[i]),
{
    let left_kept = keep_rows(left_rows, policy);
    let right_kept = keep_rows(right_rows, policy);
    let left_profile_cache = profile_cache_usage(&left_kept, left_profiles);
    let right_profile_cache = profile_cache_usage(&right_kept, right_profiles);
    let left = build_folder_signatures_with_profiles(&left_kept, left_profiles);
    let right = build_folder_signatures_with_profiles(&right_kept, right_profiles);
    let all = build_dossier_matches(&left, &right, options.top_k);
    let candidates = select_matches(&all, options);
    let confidence_counts = count_tiers(&candidates);
    let archive_signal_candidates = count_archive_signals(&candidates);
    let archive_signal_ratio = share_of(archive_signal_candidates, candidates.len());
    let r = Dossier {
        report_schema: from_chars(&to_chars("nightindex.dossier")),
        report_version: 1,
        left_folder_count: left.len(),
        right_folder_count: right.len(),
        archive_signal_candidates,
        archive_signal_ratio,
        left_profile_cache,
        right_profile_cache,
        confidence_counts,
        candidates,
    };
    assert(are_best_matches(all@, left, right, options.top_k as nat));
    assert(dossier_of(r, left, right, *options));
    proof {
        lemma_best_in_range(all@, left, right, options.top_k as nat);
        assert forall|i: int| 0 <= i < r.candidates@.len() implies in_range(
            #[trigger] r.candidates@[i],
        ) by {
            lemma_selected_from(all@, *options, i);
        }
    }
    r
}

/// The best matches are within what is ever found.
proof fn lemma_best_in_range(
    all: Seq<DossierMatch>,
    left: TextMap<FolderSignature>,
    right: TextMap<FolderSignature>,
    top_k: nat,
)
    requires
        sound(left),
        sound(right),
        are_best_matches(all, left, right, top_k),
    ensures
        forall|p: int| 0 <= p < all.len() ==> in_range(#[trigger] all[p]),
{
    assert forall|p: int| 0 <= p < all.len() implies in_range(#[trigger] all[p]) by {
        assert(is_best_match(all[p], left, right, top_k));
        let (i, j) = choose|i: int, j: int|
            #[trigger] chosen_pair(left, i, right, j, top_k) && tells_pair(
                all[p],
                left,
                i,
                right,
                j,
            );
        law_overlap_bounded(left.value_seq()[i], right.value_seq()[j]);
    }
}

/// What is asked for is among the matches.
proof fn lemma_selected_from(all: Seq<DossierMatch>, options: DossierOptions, i: int)
    requires
        0 <= i < selected(all, options).len(),
    ensures
        all.contains(selected(all, options)[i]),
{
    let keep = |m: DossierMatch| is_asked_for(m, options);
    let asked = all.filter(keep);
    let m = selected(all, options)[i];
    if options.one_per_left {
        lemma_first_from(asked, i);
    }
    assert(asked.contains(m));
    all.lemma_filter_contains_rev(keep, m);
}

proof fn lemma_first_from(matches: Seq<DossierMatch>, i: int)
    requires
        0 <= i < first_of_each(matches).len(),
    ensures
        matches.contains(first_of_each(matches)[i]),
    decreases matches.len(),
{
    let init = matches.drop_last();
    if i < first_of_each(init).len() {
        lemma_first_from(init, i);
        let k = init.index_of(first_of_each(init)[i]);
        assert(matches[k] == first_of_each(matches)[i]);
    } else {
        assert(matches[matches.len() - 1] == first_of_each(matches)[i]);
    }
}

/// A ratio with three digits behind the point.
pub open spec fn short_ratio(ratio: Ratio) -> Seq<char> {
    fixed(nearest((ratio.num * 1_000) as nat, ratio.den as nat), 3)
}

fn show_ratio(ratio: &Ratio) -> (r: Vec<char>)
    requires
        ratio.wf(),
        ratio.num <= MAX_FOLDER_WEIGHT,
    ensures
        r@ == short_ratio(*ratio),
{
    fixed_chars(round(ratio.num * 1_000, ratio.den), 3)
}

/// The hits and misses of a cache.
pub open spec fn usage_text(usage: CacheUsageCounters) -> Seq<char> {
    "(hits="@ + decimal(usage.hits as nat) + ", misses="@ + decimal(usage.misses as nat) + ")"@
}

fn push_usage(out: &mut Vec<char>, usage: &CacheUsageCounters)
    ensures
        final(out)@ == old(out)@ + usage_text(*usage),
{
    let ghost start = out@;
    extend_str(out, "(hits=");
    extend(out, &decimal_chars(usage.hits as u128));
    extend_str(out, ", misses=");
    extend(out, &decimal_chars(usage.misses as u128));
    extend_str(out, ")");
    assert(out@ =~= start + usage_text(*usage));
}

/// What is told of the best match of a dossier.
pub open spec fn best_line(d: &Dossier) -> Seq<char> {
    let best = d.candidates@[0];
    "[dossier] summary: "@ + decimal(d.candidates@.len()) + " candidates across "@ + decimal(
        d.left_folder_count as nat,
    ) + " left folders and "@ + decimal(d.right_folder_count as nat) + " right folders; best "@
        + best.left_folder@ + " -> "@ + best.right_folder@ + " ("@ + short_ratio(best.overlap_ratio)
        + ", "@ + decimal(best.shared_rel_file_count as nat) + " shared files, "@
        + best.confidence_tier.name() + ")"@
}

pub open spec fn tiers_line(d: &Dossier) -> Seq<char> {
    "[dossier] tiers: identical="@ + decimal(d.confidence_counts.identical as nat) + " similar="@
        + decimal(d.confidence_counts.similar as nat) + " possible="@ + decimal(
        d.confidence_counts.possible as nat,
    ) + " manual="@ + decimal(d.confidence_counts.manual as nat)
}

/// What is told of a dossier.
pub open spec fn dossier_lines(d: &Dossier) -> Seq<Seq<char>> {
    let cache = "[dossier] profile-cache: left"@ + usage_text(d.left_profile_cache) + " right"@
        + usage_text(d.right_profile_cache);
    if d.candidates@.len() > 0 {
        seq![
            best_line(d),
            "[dossier] next action: "@ + d.candidates@[0].confidence_tier.advice(),
            tiers_line(d),
            "[dossier] archive-signal: candidates="@ + decimal(d.archive_signal_candidates as nat)
                + " ratio="@ + short_ratio(d.archive_signal_ratio),
            cache,
        ]
    } else {
        seq![
            "[dossier] summary: 0 candidates across "@ + decimal(d.left_folder_count as nat)
                + " left folders and "@ + decimal(d.right_folder_count as nat) + " right folders"@,
            cache,
        ]
    }
}

fn show_best(d: &Dossier) -> (r: String)
    requires
        d.candidates@.len() > 0,
        in_range(d.candidates@[0]),
    ensures
        r@ == best_line(d),
{
    let best = &d.candidates[0];
    let mut out = to_chars("[dossier] summary: ");
    extend(&mut out, &decimal_chars(d.candidates.len() as u128));
    extend_str(&mut out, " candidates across ");
    extend(&mut out, &decimal_chars(d.left_folder_count as u128));
    extend_str(&mut out, " left folders and ");
    extend(&mut out, &decimal_chars(d.right_folder_count as u128));
    extend_str(&mut out, " right folders; best ");
    extend_str(&mut out, best.left_folder.as_str());
    extend_str(&mut out, " -> ");
    extend_str(&mut out, best.right_folder.as_str());
    extend_str(&mut out, " (");
    extend(&mut out, &show_ratio(&best.overlap_ratio));
    extend_str(&mut out, ", ");
    extend(&mut out, &decimal_chars(best.shared_rel_file_count as u128));
    extend_str(&mut out, " shared files, ");
    extend_str(&mut out, best.confidence_tier.as_str());
    extend_str(&mut out, ")");
    from_chars(&out)
}

/// What is told of a dossier.
pub fn tell_dossier(d: &Dossier) -> (r: Vec<String>)
    requires
        forall|i: int| 0 <= i < d.candidates@.len() ==> in_range(#[trigger] d.candidates@[i]),
        d.archive_signal_ratio.wf(),
        d.archive_signal_ratio.num <= MAX_FOLDER_WEIGHT,
    ensures
        texts(r@) == dossier_lines(d),
{
    let mut r: Vec<String> = Vec::new();
    if d.candidates.len() > 0 {
        r.push(show_best(d));
        let mut out = to_chars("[dossier] next action: ");
        extend_str(&mut out, d.candidates[0].confidence_tier.next_action());
        r.push(from_chars(&out));
        let mut out = to_chars("[dossier] tiers: identical=");
        extend(&mut out, &decimal_chars(d.confidence_counts.identical as u128));
        extend_str(&mut out, " similar=");
        extend(&mut out, &decimal_chars(d.confidence_counts.similar as u128));
        extend_str(&mut out, " possible=");
        extend(&mut out, &decimal_chars(d.confidence_counts.possible as u128));
        extend_str(&mut out, " manual=");
        extend(&mut out, &decimal_chars(d.confidence_counts.manual as u128));
        r.push(from_chars(&out));
        let mut out = to_chars("[dossier] archive-signal: candidates=");
        extend(&mut out, &decimal_chars(d.archive_signal_candidates as u128));
        extend_str(&mut out, " ratio=");
        extend(&mut out, &show_ratio(&d.archive_signal_ratio));
        r.push(from_chars(&out));
    } else {
        let mut out = to_chars("[dossier] summary: 0 candidates across ");
        extend(&mut out, &decimal_chars(d.left_folder_count as u128));
        extend_str(&mut out, " left folders and ");
        extend(&mut out, &decimal_chars(d.right_folder_count as u128));
        extend_str(&mut out, " right folders");
        r.push(from_chars(&out));
    }
    let mut out = to_chars("[dossier] profile-cache: left");
    push_usage(&mut out, &d.left_profile_cache);
    extend_str(&mut out, " right");
    push_usage(&mut out, &d.right_profile_cache);
    r.push(from_chars(&out));
    assert(texts(r@) =~= dossier_lines(d));
    r
}

// ---------------------------------------------------------------------------
// Tables
// ---------------------------------------------------------------------------

/// A weight in thousandths, with four digits behind the point.
pub open spec fn weight_cell(weight: u128) -> Seq<char> {
    fixed((weight * 10) as nat, 4)
}

/// A ratio with six digits behind the point.
pub open spec fn ratio_cell(ratio: Ratio) -> Seq<char> {
    fixed(nearest((ratio.num * 1_000_000) as nat, ratio.den as nat), 6)
}

/// Whether the numbers of a match are within what is ever found.
pub open spec fn in_range(m: DossierMatch) -> bool {
    &&& m.overlap_ratio.wf()
    &&& m.overlap_ratio.num <= MAX_FOLDER_WEIGHT
    &&& m.overlap_weight <= MAX_FOLDER_WEIGHT
    &&& m.left_weight <= MAX_FOLDER_WEIGHT
    &&& m.right_weight <= MAX_FOLDER_WEIGHT
}

/// The row of a match in the table of all that is known.
pub open spec fn match_cells(m: DossierMatch) -> Seq<Seq<char>> {
    seq![
        csv_field(m.left_folder@),
        csv_field(m.right_folder@),
        weight_cell(m.overlap_weight),
        weight_cell(m.left_weight),
        weight_cell(m.right_weight),
        ratio_cell(m.overlap_ratio),
        decimal(m.shared_rel_file_count as nat),
        decimal(m.shared_exact_file_name_count as nat),
        decimal(m.shared_normalized_file_name_count as nat),
        decimal(m.shared_file_stem_count as nat),
        decimal(m.shared_file_ext_count as nat),
        decimal(m.shared_ext_stem_count as nat),
        decimal(m.shared_hash_count as nat),
        decimal(m.shared_folder_token_count as nat),
        decimal(m.shared_normalized_parent_folder_count as nat),
        decimal(m.shared_binaryity_count as nat),
        decimal(m.shared_archive_family_count as nat),
        decimal(m.shared_language_count as nat),
        decimal(m.shared_size_class_count as nat),
        m.confidence_tier.name(),
    ]
}

/// The head of the table of matches.
pub open spec fn match_head() -> Seq<char> {
    "left_folder,right_folder,overlap_weight,left_weight,right_weight,overlap_ratio,shared_rel_file_count,shared_exact_file_name_count,shared_normalized_file_name_count,shared_file_stem_count,shared_file_ext_count,shared_ext_stem_count,shared_hash_count,shared_folder_token_count,shared_normalized_parent_folder_count,shared_binaryity_count,shared_archive_family_count,shared_language_count,shared_size_class_count,confidence_tier\n"@
}

/// The table of matches.
pub open spec fn match_table(matches: Seq<DossierMatch>) -> Seq<char>
    decreases matches.len(),
{
    if matches.len() == 0 {
        match_head()
    } else {
        match_table(matches.drop_last()) + csv_row(match_cells(matches.last()))
    }
}

fn push_weight(cells: &mut Vec<Vec<char>>, weight: u128)
    requires
        weight <= MAX_FOLDER_WEIGHT,
    ensures
        char_texts(final(cells)@) == char_texts(old(cells)@).push(weight_cell(weight)),
{
    let cell = fixed_chars(weight * 10, 4);
    push_cell(cells, cell);
}

fn push_ratio(cells: &mut Vec<Vec<char>>, ratio: &Ratio)
    requires
        ratio.wf(),
        ratio.num <= MAX_FOLDER_WEIGHT,
    ensures
        char_texts(final(cells)@) == char_texts(old(cells)@).push(ratio_cell(*ratio)),
{
    let micro = round(ratio.num * 1_000_000, ratio.den);
    let cell = fixed_chars(micro, 6);
    push_cell(cells, cell);
}

fn push_count(cells: &mut Vec<Vec<char>>, n: usize)
    ensures
        char_texts(final(cells)@) == char_texts(old(cells)@).push(decimal(n as nat)),
{
    let cell = decimal_chars(n as u128);
    push_cell(cells, cell);
}

fn cells_of_match(m: &DossierMatch) -> (r: Vec<Vec<char>>)
    requires
        in_range(*m),
    ensures
        char_texts(r@) == match_cells(*m),
{
    let mut cells: Vec<Vec<char>> = Vec::new();
    assert(char_texts(cells@) =~= Seq::empty());
    push_field(&mut cells, m.left_folder.as_str());
    push_field(&mut cells, m.right_folder.as_str());
    push_weight(&mut cells, m.overlap_weight);
    push_weight(&mut cells, m.left_weight);
    push_weight(&mut cells, m.right_weight);
    push_ratio(&mut cells, &m.overlap_ratio);
    push_count(&mut cells, m.shared_rel_file_count);
    push_count(&mut cells, m.shared_exact_file_name_count);
    push_count(&mut cells, m.shared_normalized_file_name_count);
    push_count(&mut cells, m.shared_file_stem_count);
    push_count(&mut cells, m.shared_file_ext_count);
    push_count(&mut cells, m.shared_ext_stem_count);
    push_count(&mut cells, m.shared_hash_count);
    push_count(&mut cells, m.shared_folder_token_count);
    push_count(&mut cells, m.shared_normalized_parent_folder_count);
    push_count(&mut cells, m.shared_binaryity_count);
    push_count(&mut cells, m.shared_archive_family_count);
    push_count(&mut cells, m.shared_language_count);
    push_count(&mut cells, m.shared_size_class_count);
    push_cell(&mut cells, to_chars(m.confidence_tier.as_str()));
    assert(char_texts(cells@) =~= match_cells(*m));
    cells
}

pub fn build_dossier_csv(matches: &Vec<DossierMatch>) -> (r: String)
    requires
        forall|i: int| 0 <= i < matches@.len() ==> in_range(#[trigger] matches@[i]),
    ensures
        r@ == match_table(matches@),
{
    let mut out = to_chars(
        "left_folder,right_folder,overlap_weight,left_weight,right_weight,overlap_ratio,shared_rel_file_count,shared_exact_file_name_count,shared_normalized_file_name_count,shared_file_stem_count,shared_file_ext_count,shared_ext_stem_count,shared_hash_count,shared_folder_token_count,shared_normalized_parent_folder_count,shared_binaryity_count,shared_archive_family_count,shared_language_count,shared_size_class_count,confidence_tier\n",
    );
    let mut i: usize = 0;
    while i < matches.len()
        invariant
            i <= matches@.len(),
            forall|k: int| 0 <= k < matches@.len() ==> in_range(#[trigger] matches@[k]),
            out@ == match_table(matches@.take(i as int)),
        decreases matches@.len() - i,
    {
        assert(matches@.take(i as int + 1).drop_last() =~= matches@.take(i as int));
        let cells = cells_of_match(&matches[i]);
        push_row(&mut out, &cells);
        i = i + 1;
    }
    assert(matches@.take(i as int) =~= matches@);
    from_chars(&out)
}

/// The place of a match among those of its left folder that stand together.
pub open spec fn place_of(matches: Seq<DossierMatch>, i: int) -> nat
    decreases i,
{
    if i > 0 && matches[i - 1].left_folder@ == matches[i].left_folder@ {
        place_of(matches, i - 1) + 1
    } else {
        1
    }
}

/// The row of a match in the table of actions.
pub open spec fn action_cells(m: DossierMatch, place: nat) -> Seq<Seq<char>> {
    seq![
        csv_field(m.left_folder@),
        decimal(place),
        csv_field(m.right_folder@),
        m.confidence_tier.name(),
        m.confidence_tier.advice(),
        ratio_cell(m.overlap_ratio),
        decimal(m.shared_hash_count as nat),
        decimal(m.shared_normalized_file_name_count as nat),
        decimal(m.shared_rel_file_count as nat),
    ]
}

/// The table of actions for the first `n` matches.
pub open spec fn action_table(matches: Seq<DossierMatch>, n: int) -> Seq<char>
    decreases n,
{
    if n <= 0 {
        "left_folder,rank,right_folder,confidence_tier,next_action,overlap_ratio,shared_hash_count,shared_normalized_file_name_count,shared_rel_file_count\n"@
    } else {
        action_table(matches, n - 1) + csv_row(
            action_cells(matches[n - 1], place_of(matches, n - 1)),
        )
    }
}

pub fn build_dossier_actions_csv(matches: &Vec<DossierMatch>) -> (r: String)
    requires
        forall|i: int| 0 <= i < matches@.len() ==> in_range(#[trigger] matches@[i]),
    ensures
        r@ == action_table(matches@, matches@.len() as int),
{
    let mut out = to_chars(
        "left_folder,rank,right_folder,confidence_tier,next_action,overlap_ratio,shared_hash_count,shared_normalized_file_name_count,shared_rel_file_count\n",
    );
    let mut place: usize = 0;
    let mut i: usize = 0;
    while i < matches.len()
        invariant
            i <= matches.len(),
            place <= i,
            i > 0 ==> place == place_of(matches@, i - 1),
            forall|k: int| 0 <= k < matches@.len() ==> in_range(#[trigger] matches@[k]),
            out@ == action_table(matches@, i as int),
        decreases matches@.len() - i,
    {
        let m = &matches[i];
        if i > 0 && same(matches[i - 1].left_folder.as_str(), m.left_folder.as_str()) {
            place = place + 1;
        } else {
            place = 1;
        }
        assert(place == place_of(matches@, i as int));
        let mut cells: Vec<Vec<char>> = Vec::new();
        assert(char_texts(cells@) =~= Seq::empty());
        push_field(&mut cells, m.left_folder.as_str());
        push_count(&mut cells, place);
        push_field(&mut cells, m.right_folder.as_str());
        push_cell(&mut cells, to_chars(m.confidence_tier.as_str()));
        push_cell(&mut cells, to_chars(m.confidence_tier.next_action()));
        push_ratio(&mut cells, &m.overlap_ratio);
        push_count(&mut cells, m.shared_hash_count);
        push_count(&mut cells, m.shared_normalized_file_name_count);
        push_count(&mut cells, m.shared_rel_file_count);
        assert(char_texts(cells@) =~= action_cells(*m, place as nat));
        push_row(&mut out, &cells);
        i = i + 1;
    }
    from_chars(&out)
}

} // verus!
