//! Laws of comparisons, of reports and of their tables.

use crate::cache::{count_trait, counts_usage, has_trait, share, CacheUsageCounters, ProfileTrait};
use crate::compare::{
    brief_table, bytes_at, common_paths, lone_paths, rate_cell, same_paths, seconds_cell,
    summary_table, BriefSummary, CompareSummary,
};
use crate::csv::{csv_field, csv_fields, law_csv_round_trip};
use crate::double::in_parts;
use crate::double_laws::law_nearest_is_nearest;
use crate::filter::{lemma_filter_all, lemma_filter_keeps};
use crate::fingerprint::FileFingerprintProfile;
use crate::matching::{DossierAction, DossierConfidenceTier, DossierMatch};
use crate::merge_laws::{lemma_decimal_plain, lemma_fixed_plain, lemma_plain_field};
use crate::number::{decimal, fixed};
use crate::policy::{excluded, ExcludePolicy};
use crate::ratio::{nearest, Ratio};
use crate::record::{has_path, last_index, paths_of, row_of, same_meta, sorted_paths, FileRecord};
use crate::report::{
    best_line, count_archive, count_tier, dossier_lines, first_of_each, has_left, is_asked_for,
    match_cells, match_head, match_table, place_of, ratio_cell, rows_kept, selected, short_ratio,
    tiers_line, usage_text, Dossier, DossierOptions,
};
use crate::text::{joined, opt_text};
use crate::textmap::lemma_sorted_set;
use vstd::prelude::*;
use vstd::utf8::is_ascii_chars;

verus! {

// ---------------------------------------------------------------------------
// Rows and their paths
// ---------------------------------------------------------------------------

/// Where several rows have one path, the last of them counts; a path that no
/// row has is not there.
pub proof fn law_last_row_of_a_path_counts(rows: Seq<FileRecord>, path: Seq<char>)
    ensures
        has_path(rows, path) ==> exists|i: int|
            0 <= i < rows.len() && #[trigger] rows[i] == row_of(rows, path) && rows[i].rel_path@
                == path && forall|j: int| i < j < rows.len() ==> (#[trigger] rows[j]).rel_path@
                != path,
        !has_path(rows, path) ==> forall|j: int|
            0 <= j < rows.len() ==> (#[trigger] rows[j]).rel_path@ != path,
    decreases rows.len(),
{
    if rows.len() > 0 && rows.last().rel_path@ != path {
        let init = rows.drop_last();
        law_last_row_of_a_path_counts(init, path);
        if has_path(init, path) {
            let i = choose|i: int|
                0 <= i < init.len() && #[trigger] init[i] == row_of(init, path)
                    && init[i].rel_path@ == path && forall|j: int|
                    i < j < init.len() ==> (#[trigger] init[j]).rel_path@ != path;
            assert(last_index(rows, path) == last_index(init, path));
            lemma_last_index_within(init, path);
            assert(rows[i] == row_of(rows, path));
            assert forall|j: int| i < j < rows.len() implies (#[trigger] rows[j]).rel_path@
                != path by {
                if j < init.len() {
                    assert(init[j].rel_path@ != path);
                }
            }
        } else {
            assert forall|j: int| 0 <= j < rows.len() implies (#[trigger] rows[j]).rel_path@
                != path by {
                if j < init.len() {
                    assert(init[j].rel_path@ != path);
                }
            }
        }
    } else if rows.len() > 0 {
        assert(rows[rows.len() - 1] == row_of(rows, path));
    }
}

proof fn lemma_last_index_within(rows: Seq<FileRecord>, path: Seq<char>)
    ensures
        last_index(rows, path) matches Some(i) ==> 0 <= i < rows.len() && rows[i].rel_path@ == path,
    decreases rows.len(),
{
    if rows.len() > 0 && rows.last().rel_path@ != path {
        lemma_last_index_within(rows.drop_last(), path);
    }
}

proof fn lemma_is_sorted_path(rows: Seq<FileRecord>, path: Seq<char>)
    ensures
        sorted_paths(rows).contains(path) <==> exists|i: int|
            0 <= i < rows.len() && (#[trigger] rows[i]).rel_path@ == path,
{
    let all = paths_of(rows);
    lemma_sorted_set(all);
    if all.contains(path) {
        let i = choose|i: int| 0 <= i < all.len() && all[i] == path;
        assert(rows[i].rel_path@ == path);
    }
    if exists|i: int| 0 <= i < rows.len() && (#[trigger] rows[i]).rel_path@ == path {
        let i = choose|i: int| 0 <= i < rows.len() && (#[trigger] rows[i]).rel_path@ == path;
        assert(all[i] == path);
    }
}

/// Each path of the left tree is common to both trees where some row of the
/// right one has it, and else the left tree's alone.
pub proof fn law_paths_are_common_or_lone(left: Seq<FileRecord>, right: Seq<FileRecord>, i: int)
    requires
        0 <= i < left.len(),
    ensures
        common_paths(left, right).contains(left[i].rel_path@) <==> exists|j: int|
            0 <= j < right.len() && (#[trigger] right[j]).rel_path@ == left[i].rel_path@,
        lone_paths(left, right).contains(left[i].rel_path@) <==> !exists|j: int|
            0 <= j < right.len() && (#[trigger] right[j]).rel_path@ == left[i].rel_path@,
{
    let path = left[i].rel_path@;
    let all = sorted_paths(left);
    lemma_is_sorted_path(left, path);
    law_last_row_of_a_path_counts(right, path);
    let both = |p: Seq<char>| has_path(right, p);
    let lone = |p: Seq<char>| !has_path(right, p);
    lemma_filter_keeps(all, both, path);
    lemma_filter_keeps(all, lone, path);
}

/// A path is the same in both trees where its rows agree in size, time and
/// hash, and only there.
pub proof fn law_same_paths_agree(left: Seq<FileRecord>, right: Seq<FileRecord>, path: Seq<char>)
    ensures
        same_paths(left, right).contains(path) <==> has_path(left, path) && has_path(right, path)
            && row_of(left, path).size == row_of(right, path).size && row_of(left, path).mtime_ns
            == row_of(right, path).mtime_ns && opt_text(row_of(left, path).fast_hash) == opt_text(
            row_of(right, path).fast_hash,
        ),
{
    let all = sorted_paths(left);
    lemma_is_sorted_path(left, path);
    law_last_row_of_a_path_counts(left, path);
    lemma_filter_keeps(
        all,
        |p: Seq<char>|
            has_path(right, p) && same_meta(row_of(left, p), row_of(right, p)),
        path,
    );
}

/// The bytes of paths are the sizes of their rows, added up.
pub proof fn law_bytes_are_added_up(
    rows: Seq<FileRecord>,
    paths: Seq<Seq<char>>,
    more: Seq<Seq<char>>,
)
    ensures
        bytes_at(rows, paths + more) == bytes_at(rows, paths) + bytes_at(rows, more),
        forall|p: Seq<char>| #[trigger] bytes_at(rows, seq![p]) == row_of(rows, p).size,
    decreases more.len(),
{
    if more.len() > 0 {
        law_bytes_are_added_up(rows, paths, more.drop_last());
        assert((paths + more).drop_last() =~= paths + more.drop_last());
    } else {
        assert(paths + more =~= paths);
    }
    assert forall|p: Seq<char>| #[trigger] bytes_at(rows, seq![p]) == row_of(rows, p).size by {
        assert(seq![p].drop_last() =~= Seq::empty());
        assert(bytes_at(rows, seq![p].drop_last()) == 0);
    }
}

// ---------------------------------------------------------------------------
// Caches
// ---------------------------------------------------------------------------

/// A share is a part of a whole, and no share of nothing.
pub proof fn law_share_of_a_whole(part: usize, all: usize)
    ensures
        all > 0 ==> share(part, all).num * all == part * share(part, all).den,
        all == 0 ==> share(part, all).num == 0,
        share(part, all).den > 0,
{
}

/// Whether an optional text is there, and is not empty.
pub open spec fn is_filled(s: Option<String>) -> bool {
    s matches Some(t) && t@.len() > 0
}

/// The rows whose profile is known.
pub open spec fn profiled(
    rows: Seq<FileRecord>,
    profiles: Map<Seq<char>, FileFingerprintProfile>,
    tells: spec_fn(FileFingerprintProfile) -> bool,
) -> nat {
    rows.filter(
        |row: FileRecord| profiles.contains_key(row.rel_path@) && tells(profiles[row.rel_path@]),
    ).len()
}

proof fn lemma_profiled(
    rows: Seq<FileRecord>,
    profiles: Map<Seq<char>, FileFingerprintProfile>,
    t: ProfileTrait,
    tells: spec_fn(FileFingerprintProfile) -> bool,
)
    requires
        forall|row: FileRecord| #[trigger]
            has_trait(row, profiles, t) <==> profiles.contains_key(row.rel_path@) && tells(
                profiles[row.rel_path@],
            ),
    ensures
        count_trait(rows, profiles, t) == profiled(rows, profiles, tells),
    decreases rows.len(),
{
    reveal(Seq::filter);
    if rows.len() > 0 {
        lemma_profiled(rows.drop_last(), profiles, t, tells);
        assert(has_trait(rows.last(), profiles, t) <==> profiles.contains_key(
            rows.last().rel_path@,
        ) && tells(profiles[rows.last().rel_path@]));
    }
}

/// A row is a hit where a profile is kept for its path, and else a miss; of the
/// hits those are counted whose profile tells something of a kind, and each
/// ratio is the share of these.
pub proof fn law_usage_counts_rows(
    c: CacheUsageCounters,
    rows: Seq<FileRecord>,
    profiles: Map<Seq<char>, FileFingerprintProfile>,
)
    requires
        counts_usage(c, rows, profiles),
    ensures
        c.hits == profiled(rows, profiles, |p: FileFingerprintProfile| true),
        c.hits + c.misses == rows.len(),
        c.analytics.coverage.profile_rows == c.hits,
        c.analytics.coverage.total_rows == rows.len(),
        c.analytics.coverage.coverage_ratio.num * rows.len() == c.hits
            * c.analytics.coverage.coverage_ratio.den,
        c.analytics.descriptor_density.with_binary_descriptor == profiled(
            rows,
            profiles,
            |p: FileFingerprintProfile| is_filled(p.binary_descriptor),
        ),
        c.analytics.descriptor_density.with_text_signature == profiled(
            rows,
            profiles,
            |p: FileFingerprintProfile| is_filled(p.text_signature),
        ),
        c.analytics.descriptor_density.with_archive_signature == profiled(
            rows,
            profiles,
            |p: FileFingerprintProfile| is_filled(p.archive_signature),
        ),
        c.analytics.descriptor_density.with_any_descriptor == profiled(
            rows,
            profiles,
            |p: FileFingerprintProfile|
                is_filled(p.binary_descriptor) || is_filled(p.text_signature) || is_filled(
                    p.archive_signature,
                ),
        ),
        c.hits > 0 ==> c.analytics.descriptor_density.any_descriptor_ratio.num * c.hits
            == c.analytics.descriptor_density.with_any_descriptor
            * c.analytics.descriptor_density.any_descriptor_ratio.den,
        c.hits > 0 ==> c.analytics.descriptor_density.binary_descriptor_ratio.num * c.hits
            == c.analytics.descriptor_density.with_binary_descriptor
            * c.analytics.descriptor_density.binary_descriptor_ratio.den,
        c.hits > 0 ==> c.analytics.descriptor_density.text_signature_ratio.num * c.hits
            == c.analytics.descriptor_density.with_text_signature
            * c.analytics.descriptor_density.text_signature_ratio.den,
        c.hits > 0 ==> c.analytics.descriptor_density.archive_signature_ratio.num * c.hits
            == c.analytics.descriptor_density.with_archive_signature
            * c.analytics.descriptor_density.archive_signature_ratio.den,
{
    lemma_profiled(
        rows,
        profiles,
        ProfileTrait::Present,
        |p: FileFingerprintProfile| true,
    );
    lemma_profiled(
        rows,
        profiles,
        ProfileTrait::BinaryDescriptor,
        |p: FileFingerprintProfile| is_filled(p.binary_descriptor),
    );
    lemma_profiled(
        rows,
        profiles,
        ProfileTrait::TextSignature,
        |p: FileFingerprintProfile| is_filled(p.text_signature),
    );
    lemma_profiled(
        rows,
        profiles,
        ProfileTrait::ArchiveSignature,
        |p: FileFingerprintProfile| is_filled(p.archive_signature),
    );
    lemma_profiled(
        rows,
        profiles,
        ProfileTrait::AnyDescriptor,
        |p: FileFingerprintProfile|
            is_filled(p.binary_descriptor) || is_filled(p.text_signature) || is_filled(
                p.archive_signature,
            ),
    );
    let d = c.analytics.descriptor_density;
    law_share_of_a_whole(c.hits, c.analytics.coverage.total_rows);
    law_share_of_a_whole(d.with_any_descriptor, c.hits);
    law_share_of_a_whole(d.with_binary_descriptor, c.hits);
    law_share_of_a_whole(d.with_text_signature, c.hits);
    law_share_of_a_whole(d.with_archive_signature, c.hits);
}

// ---------------------------------------------------------------------------
// Matches that are asked for
// ---------------------------------------------------------------------------

/// The surer a match has to be, the fewer are asked for: identical folders
/// always are, similar ones unless only identical ones count, and so on down to
/// those that only a look by hand can tell.
pub proof fn law_how_sure_a_match_has_to_be(m: DossierMatch, options: DossierOptions)
    requires
        options.only_action is None,
    ensures
        options.min_confidence == DossierConfidenceTier::Manual ==> is_asked_for(m, options),
        options.min_confidence == DossierConfidenceTier::Possible ==> (is_asked_for(m, options)
            <==> m.confidence_tier != DossierConfidenceTier::Manual),
        options.min_confidence == DossierConfidenceTier::Similar ==> (is_asked_for(m, options)
            <==> m.confidence_tier == DossierConfidenceTier::Similar || m.confidence_tier
            == DossierConfidenceTier::Identical),
        options.min_confidence == DossierConfidenceTier::Identical ==> (is_asked_for(m, options)
            <==> m.confidence_tier == DossierConfidenceTier::Identical),
{
}

/// To ask for an action asks for the tiers that call for it: identical folders
/// to apply, similar and possible ones to review, and the rest by hand.
pub proof fn law_actions_ask_for_tiers(m: DossierMatch, options: DossierOptions)
    requires
        options.min_confidence == DossierConfidenceTier::Manual,
    ensures
        options.only_action == Some(DossierAction::Apply) ==> (is_asked_for(m, options)
            <==> m.confidence_tier == DossierConfidenceTier::Identical),
        options.only_action == Some(DossierAction::Review) ==> (is_asked_for(m, options)
            <==> m.confidence_tier == DossierConfidenceTier::Similar || m.confidence_tier
            == DossierConfidenceTier::Possible),
        options.only_action == Some(DossierAction::Manual) ==> (is_asked_for(m, options)
            <==> m.confidence_tier == DossierConfidenceTier::Manual),
{
}

/// Where one match of each left folder is asked for, the first of them is kept;
/// else all are.
pub proof fn law_first_match_is_kept(matches: Seq<DossierMatch>, i: int)
    requires
        0 <= i < matches.len(),
        forall|j: int|
            0 <= j < i ==> (#[trigger] matches[j]).left_folder@ != matches[i].left_folder@,
    ensures
        first_of_each(matches).contains(matches[i]),
    decreases matches.len(),
{
    let init = matches.drop_last();
    if i == matches.len() - 1 {
        if has_left(init, matches[i].left_folder@) {
            let j = choose|j: int|
                0 <= j < init.len() && (#[trigger] init[j]).left_folder@
                    == matches[i].left_folder@;
            assert(matches[j].left_folder@ != matches[i].left_folder@);
        }
        let all = first_of_each(matches);
        assert(all[all.len() - 1] == matches[i]);
    } else {
        assert forall|j: int| 0 <= j < i implies (#[trigger] init[j]).left_folder@
            != init[i].left_folder@ by {
            assert(matches[j].left_folder@ != matches[i].left_folder@);
        }
        law_first_match_is_kept(init, i);
        let f = first_of_each(init);
        assert(first_of_each(matches)[f.index_of(matches[i])] == matches[i]);
    }
}

/// Without that, each match that is asked for is kept, and no other.
pub proof fn law_asked_matches_are_kept(
    matches: Seq<DossierMatch>,
    options: DossierOptions,
)
    requires
        !options.one_per_left,
    ensures
        forall|i: int|
            0 <= i < matches.len() && is_asked_for(matches[i], options) ==> selected(
                matches,
                options,
            ).contains(#[trigger] matches[i]),
        forall|k: int|
            0 <= k < selected(matches, options).len() ==> is_asked_for(
                #[trigger] selected(matches, options)[k],
                options,
            ) && matches.contains(selected(matches, options)[k]),
    decreases matches.len(),
{
    let keep = |m: DossierMatch| is_asked_for(m, options);
    let kept = selected(matches, options);
    assert forall|i: int|
        0 <= i < matches.len() && is_asked_for(matches[i], options) implies kept.contains(
        #[trigger] matches[i],
    ) by {
        matches.lemma_filter_contains(keep, i);
    }
    assert forall|k: int| 0 <= k < kept.len() implies is_asked_for(#[trigger] kept[k], options)
        && matches.contains(kept[k]) by {
        matches.lemma_filter_pred(keep, k);
        matches.lemma_filter_contains_rev(keep, kept[k]);
    }
}

/// The matches of a tier, and those that share an archive family, are counted
/// each once.
pub proof fn law_tiers_are_counted(matches: Seq<DossierMatch>, tier: DossierConfidenceTier)
    ensures
        count_tier(matches, tier) == matches.filter(
            |m: DossierMatch| m.confidence_tier == tier,
        ).len(),
        count_archive(matches) == matches.filter(
            |m: DossierMatch| m.shared_archive_family_count >= 1,
        ).len(),
    decreases matches.len(),
{
    reveal(Seq::filter);
    if matches.len() > 0 {
        law_tiers_are_counted(matches.drop_last(), tier);
    }
}

/// The places of the matches of a left folder that stand together count from
/// one.
pub proof fn law_places_count_from_one(matches: Seq<DossierMatch>, start: int, i: int)
    requires
        0 <= start <= i < matches.len(),
        start == 0 || matches[start - 1].left_folder@ != matches[start].left_folder@,
        forall|j: int|
            start <= j <= i ==> (#[trigger] matches[j]).left_folder@
                == matches[start].left_folder@,
    ensures
        place_of(matches, i) == i - start + 1,
    decreases i,
{
    if i > start {
        law_places_count_from_one(matches, start, i - 1);
        assert(matches[i - 1].left_folder@ == matches[i].left_folder@);
    }
}

/// A ratio is told to the nearest thousandth, in a table to the nearest
/// millionth.
pub proof fn law_ratios_are_rounded(ratio: Ratio)
    requires
        ratio.den > 0,
    ensures
        exists|n: nat| #[trigger]
            fixed(n, 3) == short_ratio(ratio) && 2 * (n * ratio.den - ratio.num * 1000)
                <= ratio.den && 2 * (ratio.num * 1000 - n * ratio.den) <= ratio.den,
        exists|n: nat| #[trigger]
            fixed(n, 6) == ratio_cell(ratio) && 2 * (n * ratio.den - ratio.num * 1_000_000)
                <= ratio.den && 2 * (ratio.num * 1_000_000 - n * ratio.den) <= ratio.den,
{
    law_nearest_is_nearest((ratio.num * 1000) as nat, ratio.den as nat);
    law_nearest_is_nearest((ratio.num * 1_000_000) as nat, ratio.den as nat);
    let n = nearest((ratio.num * 1000) as nat, ratio.den as nat);
    let k = nearest((ratio.num * 1_000_000) as nat, ratio.den as nat);
    assert(fixed(n, 3) == short_ratio(ratio));
    assert(fixed(k, 6) == ratio_cell(ratio));
}

// ---------------------------------------------------------------------------
// Tables
// ---------------------------------------------------------------------------

/// Whether a table of one row has a heading, and its row is read as these
/// fields.
pub open spec fn reads_as(
    table: Seq<char>,
    heading: Seq<char>,
    line: Seq<char>,
    fields: Seq<Seq<char>>,
) -> bool {
    table == heading + line + seq!['\n'] && csv_fields(line) == fields
}

/// What is read back from the table of a comparison.
pub open spec fn summary_fields(s: CompareSummary) -> Seq<Seq<char>> {
    seq![
        s.left_label@,
        s.right_label@,
        decimal(s.left_files as nat),
        decimal(s.right_files as nat),
        decimal(s.same_path_same_meta as nat),
        decimal(s.same_path_changed as nat),
        decimal(s.left_only as nat),
        decimal(s.right_only as nat),
    ]
}

/// The table of a comparison is read back as the labels and counts of it, each
/// in the column of its name.
pub proof fn law_comparison_is_read_back(s: CompareSummary)
    requires
        is_ascii_chars(s.left_label@),
        is_ascii_chars(s.right_label@),
    ensures
        exists|line: Seq<char>| #[trigger]
            reads_as(
                summary_table(&s),
                "left_label,right_label,left_files,right_files,same_path_same_meta,same_path_changed,left_only,right_only\n"@,
                line,
                summary_fields(s),
            ),
{
    let fields = summary_fields(s);
    assert forall|i: int| 2 <= i < 8 implies csv_field(#[trigger] fields[i]) == fields[i]
        && is_ascii_chars(fields[i]) by {
        lemma_decimal_plain(s.left_files as nat);
        lemma_decimal_plain(s.right_files as nat);
        lemma_decimal_plain(s.same_path_same_meta as nat);
        lemma_decimal_plain(s.same_path_changed as nat);
        lemma_decimal_plain(s.left_only as nat);
        lemma_decimal_plain(s.right_only as nat);
        lemma_plain_field(fields[i]);
    }
    assert forall|i: int| 0 <= i < fields.len() implies is_ascii_chars(#[trigger] fields[i]) by {
        if i >= 2 {
            assert(csv_field(fields[i]) == fields[i]);
        }
    }
    let cells = seq![
        csv_field(s.left_label@),
        csv_field(s.right_label@),
        decimal(s.left_files as nat),
        decimal(s.right_files as nat),
        decimal(s.same_path_same_meta as nat),
        decimal(s.same_path_changed as nat),
        decimal(s.left_only as nat),
        decimal(s.right_only as nat),
    ];
    assert(cells =~= fields.map_values(|f: Seq<char>| csv_field(f))) by {
        assert forall|i: int| 0 <= i < 8 implies cells[i] == csv_field(fields[i]) by {
            if i >= 2 {
                assert(csv_field(fields[i]) == fields[i]);
            }
        }
    }
    law_csv_round_trip(fields);
    let line = joined(cells, seq![',']);
    let heading = "left_label,right_label,left_files,right_files,same_path_same_meta,same_path_changed,left_only,right_only\n"@;
    assert(summary_table(&s) =~= heading + line + seq!['\n']);
    assert(reads_as(summary_table(&s), heading, line, fields));
}

/// The columns of the table of matches: each tells of the match what it is
/// named for.
pub proof fn law_columns_of_a_match(m: DossierMatch)
    ensures
        match_cells(m).len() == 20,
        match_cells(m)[0] == csv_field(m.left_folder@),
        match_cells(m)[1] == csv_field(m.right_folder@),
        match_cells(m)[2] == fixed((m.overlap_weight * 10) as nat, 4),
        match_cells(m)[3] == fixed((m.left_weight * 10) as nat, 4),
        match_cells(m)[4] == fixed((m.right_weight * 10) as nat, 4),
        match_cells(m)[5] == ratio_cell(m.overlap_ratio),
        match_cells(m)[6] == decimal(m.shared_rel_file_count as nat),
        match_cells(m)[7] == decimal(m.shared_exact_file_name_count as nat),
        match_cells(m)[8] == decimal(m.shared_normalized_file_name_count as nat),
        match_cells(m)[9] == decimal(m.shared_file_stem_count as nat),
        match_cells(m)[10] == decimal(m.shared_file_ext_count as nat),
        match_cells(m)[11] == decimal(m.shared_ext_stem_count as nat),
        match_cells(m)[12] == decimal(m.shared_hash_count as nat),
        match_cells(m)[13] == decimal(m.shared_folder_token_count as nat),
        match_cells(m)[14] == decimal(m.shared_normalized_parent_folder_count as nat),
        match_cells(m)[15] == decimal(m.shared_binaryity_count as nat),
        match_cells(m)[16] == decimal(m.shared_archive_family_count as nat),
        match_cells(m)[17] == decimal(m.shared_language_count as nat),
        match_cells(m)[18] == decimal(m.shared_size_class_count as nat),
        match_cells(m)[19] == m.confidence_tier.name(),
{
}

/// What is read back from the table of a brief.
pub open spec fn brief_fields(s: BriefSummary) -> Seq<Seq<char>> {
    seq![
        s.left_label@,
        s.right_label@,
        decimal(s.left_files as nat),
        decimal(s.right_files as nat),
        decimal(s.same_path_same_meta as nat),
        decimal(s.same_path_changed as nat),
        decimal(s.left_only as nat),
        decimal(s.right_only as nat),
        decimal(s.files_to_copy as nat),
        decimal(s.bytes_to_copy as nat),
        match s.prior_bytes_per_second {
            Some(x) => fixed(in_parts(x@, 1_000_000), 6),
            None => Seq::empty(),
        },
        match s.estimated_seconds {
            Some(n) => decimal(n as nat),
            None => Seq::empty(),
        },
    ]
}

/// The table of a brief is read back as what the brief tells, each in the
/// column of its name; what is not known is left empty.
pub proof fn law_brief_is_read_back(s: BriefSummary)
    requires
        is_ascii_chars(s.left_label@),
        is_ascii_chars(s.right_label@),
    ensures
        exists|line: Seq<char>| #[trigger]
            reads_as(
                brief_table(&s),
                "left_label,right_label,left_files,right_files,same_path_same_meta,same_path_changed,left_only,right_only,files_to_copy,bytes_to_copy,prior_bytes_per_second,estimated_seconds\n"@,
                line,
                brief_fields(s),
            ),
{
    let fields = brief_fields(s);
    assert forall|i: int| 2 <= i < 12 implies csv_field(#[trigger] fields[i]) == fields[i]
        && is_ascii_chars(fields[i]) by {
        lemma_decimal_plain(s.left_files as nat);
        lemma_decimal_plain(s.right_files as nat);
        lemma_decimal_plain(s.same_path_same_meta as nat);
        lemma_decimal_plain(s.same_path_changed as nat);
        lemma_decimal_plain(s.left_only as nat);
        lemma_decimal_plain(s.right_only as nat);
        lemma_decimal_plain(s.files_to_copy as nat);
        lemma_decimal_plain(s.bytes_to_copy as nat);
        if let Some(x) = s.prior_bytes_per_second {
            lemma_fixed_plain(in_parts(x@, 1_000_000), 6);
        }
        if let Some(n) = s.estimated_seconds {
            lemma_decimal_plain(n as nat);
        }
        lemma_plain_field(fields[i]);
    }
    assert forall|i: int| 0 <= i < fields.len() implies is_ascii_chars(#[trigger] fields[i]) by {
        if i >= 2 {
            assert(csv_field(fields[i]) == fields[i]);
        }
    }
    let cells = seq![
        csv_field(s.left_label@),
        csv_field(s.right_label@),
        decimal(s.left_files as nat),
        decimal(s.right_files as nat),
        decimal(s.same_path_same_meta as nat),
        decimal(s.same_path_changed as nat),
        decimal(s.left_only as nat),
        decimal(s.right_only as nat),
        decimal(s.files_to_copy as nat),
        decimal(s.bytes_to_copy as nat),
        rate_cell(s.prior_bytes_per_second),
        seconds_cell(s.estimated_seconds),
    ];
    assert(cells =~= fields.map_values(|f: Seq<char>| csv_field(f))) by {
        assert forall|i: int| 0 <= i < 12 implies cells[i] == csv_field(fields[i]) by {
            if i >= 2 {
                assert(csv_field(fields[i]) == fields[i]);
            }
        }
    }
    law_csv_round_trip(fields);
    let line = joined(cells, seq![',']);
    let heading = "left_label,right_label,left_files,right_files,same_path_same_meta,same_path_changed,left_only,right_only,files_to_copy,bytes_to_copy,prior_bytes_per_second,estimated_seconds\n"@;
    assert(brief_table(&s) =~= heading + line + seq!['\n']);
    assert(reads_as(brief_table(&s), heading, line, fields));
}

/// A dossier is of the rows that the policy lets through, in their order.
pub proof fn law_rows_that_are_left_out(
    rows: Seq<FileRecord>,
    policy: ExcludePolicy,
    row: FileRecord,
)
    ensures
        rows_kept(rows, policy).contains(row) <==> rows.contains(row) && !excluded(
            row.rel_path@,
            policy,
        ),
        !policy.enabled ==> rows_kept(rows, policy) == rows,
{
    let keep = |x: FileRecord| !excluded(x.rel_path@, policy);
    lemma_filter_keeps(rows, keep, row);
    if !policy.enabled {
        lemma_filter_all(rows, keep);
    }
}

/// What is told of a dossier with matches: the best one and what to do next,
/// then the tiers, the archives and the caches; without any, how many folders
/// there are, and the caches.
pub proof fn law_lines_of_a_dossier(d: Dossier)
    ensures
        d.candidates@.len() > 0 ==> {
            let lines = dossier_lines(&d);
            &&& lines.len() == 5
            &&& lines[0] == best_line(&d)
            &&& lines[1] == "[dossier] next action: "@ + d.candidates@[0].confidence_tier.advice()
            &&& lines[2] == tiers_line(&d)
            &&& lines[3] == "[dossier] archive-signal: candidates="@ + decimal(
                d.archive_signal_candidates as nat,
            ) + " ratio="@ + short_ratio(d.archive_signal_ratio)
        },
        d.candidates@.len() == 0 ==> {
            let lines = dossier_lines(&d);
            &&& lines.len() == 2
            &&& lines[0] == "[dossier] summary: 0 candidates across "@ + decimal(
                d.left_folder_count as nat,
            ) + " left folders and "@ + decimal(d.right_folder_count as nat) + " right folders"@
        },
        dossier_lines(&d).last() == "[dossier] profile-cache: left"@ + usage_text(
            d.left_profile_cache,
        ) + " right"@ + usage_text(d.right_profile_cache),
{
}

/// The table of matches has a heading, and a row of cells for each match, in
/// order.
pub proof fn law_rows_of_matches(matches: Seq<DossierMatch>, m: DossierMatch)
    ensures
        match_table(matches.push(m)) == match_table(matches) + joined(match_cells(m), seq![','])
            + seq!['\n'],
        match_table(Seq::empty()) == match_head(),
{
    assert(matches.push(m).drop_last() =~= matches);
    assert(match_table(matches.push(m)) =~= match_table(matches) + joined(
        match_cells(m),
        seq![','],
    ) + seq!['\n']);
}

} // verus!
