//! Laws of what a scan does with an entry, told by what is known of it.

use crate::compat_run::comma_list;
use crate::fingerprint::FileFingerprintProfile;
use crate::policy::{excluded, ExcludePolicy};
use crate::record::FileRecord;
use crate::scan::{
    built_profile, failure_of, hash_of, is_row, plain_profile, profile_source, scan_counted,
    scan_opening, scan_ruling, scanned_profile, ProfileSource, ScanFacts, ScanQuestion, ScanRuling,
    ScanTotals, StatLook, TargetLook, WalkKind, WalkLook,
};
use crate::semantic::semantic_signature;
use crate::text::opt_text;
use vstd::prelude::*;

verus! {

/// Whether the walk gave a regular file of the given path, size and time, which
/// the policy lets through, and the index was asked for its row.
pub open spec fn finds_file(
    facts: &ScanFacts,
    policy: &ExcludePolicy,
    rel: Seq<char>,
    size: u64,
    mtime_ns: i64,
) -> bool {
    &&& facts.look matches WalkLook::Entry { kind, path, rel_path } && kind == WalkKind::File
        && rel_path is Ok && rel_path->Ok_0@ == rel
    &&& facts.stat matches Some(StatLook::Stat { size: s, mtime_ns: t }) && s == size && t == Some(
        mtime_ns,
    )
    &&& facts.stored is Some
    &&& !excluded(rel, *policy)
}

/// A file whose kind, size or time is not that of its row has changed: where
/// hashes are wanted it is hashed before anything else, the hash is the computed
/// one, and neither the hash nor the profile that the index holds is used.
pub proof fn law_changed_is_hashed(
    facts: &ScanFacts,
    policy: &ExcludePolicy,
    rel: Seq<char>,
    size: u64,
    mtime_ns: i64,
    row: FileRecord,
)
    requires
        finds_file(facts, policy, rel, size, mtime_ns),
        facts.stored == Some(Some(row)),
        row.file_type@ != "file"@ || row.size != size || row.mtime_ns != mtime_ns,
    ensures
        facts.hash is None <==> scan_ruling(facts, policy, true) == ScanRuling::Ask(
            ScanQuestion::Hash,
        ),
        hash_of(facts, true) == opt_text(facts.hash),
        hash_of(facts, false) is None,
        profile_source(facts) != ProfileSource::Stored,
        scan_ruling(facts, policy, true) != ScanRuling::Ask(ScanQuestion::StoredProfile),
        scan_ruling(facts, policy, false) != ScanRuling::Ask(ScanQuestion::StoredProfile),
{
}

/// A file that the index does not hold is hashed where hashes are wanted, and has
/// none otherwise.
pub proof fn law_new_is_hashed(
    facts: &ScanFacts,
    policy: &ExcludePolicy,
    rel: Seq<char>,
    size: u64,
    mtime_ns: i64,
)
    requires
        finds_file(facts, policy, rel, size, mtime_ns),
        facts.stored == Some(None::<FileRecord>),
    ensures
        facts.hash is None <==> scan_ruling(facts, policy, true) == ScanRuling::Ask(
            ScanQuestion::Hash,
        ),
        hash_of(facts, true) == opt_text(facts.hash),
        scan_ruling(facts, policy, false) != ScanRuling::Ask(ScanQuestion::Hash),
        hash_of(facts, false) is None,
        profile_source(facts) != ProfileSource::Stored,
{
}

/// A file whose kind, size and time are those of its row has not changed: its
/// hash is that of the row, unless one is wanted and the row has none, and its
/// profile is the one that the index holds, where it holds one.
pub proof fn law_unchanged_is_reused(
    facts: &ScanFacts,
    policy: &ExcludePolicy,
    rel: Seq<char>,
    size: u64,
    mtime_ns: i64,
    row: FileRecord,
)
    requires
        finds_file(facts, policy, rel, size, mtime_ns),
        facts.stored == Some(Some(row)),
        row.file_type@ == "file"@,
        row.size == size,
        row.mtime_ns == mtime_ns,
    ensures
        row.fast_hash is Some ==> hash_of(facts, true) == opt_text(row.fast_hash) && scan_ruling(
            facts,
            policy,
            true,
        ) != ScanRuling::Ask(ScanQuestion::Hash),
        row.fast_hash is None ==> hash_of(facts, true) == opt_text(facts.hash)
            && (facts.hash is None
            <==> scan_ruling(facts, policy, true) == ScanRuling::Ask(ScanQuestion::Hash)),
        hash_of(facts, false) == opt_text(row.fast_hash),
        scan_ruling(facts, policy, false) != ScanRuling::Ask(ScanQuestion::Hash),
        facts.stored_profile is None <==> scan_ruling(facts, policy, false) == ScanRuling::Ask(
            ScanQuestion::StoredProfile,
        ),
        facts.stored_profile matches Some(Some(p)) ==> scanned_profile(facts, true) == p@
            && scanned_profile(facts, false) == p@ && scan_ruling(facts, policy, false)
            == ScanRuling::Indexed,
{
}

/// What the cache holds for an entry is used where the index's own profile is
/// not, and a profile is built only where the cache holds none.
pub proof fn law_cache_comes_next(
    facts: &ScanFacts,
    policy: &ExcludePolicy,
    rel: Seq<char>,
    size: u64,
    mtime_ns: i64,
    wanted: bool,
)
    requires
        finds_file(facts, policy, rel, size, mtime_ns),
        facts.hash is Some || !wanted,
        facts.stored == Some(None::<FileRecord>) || facts.stored_profile == Some(
            None::<FileFingerprintProfile>,
        ),
    ensures
        facts.cached_profile is None <==> scan_ruling(facts, policy, wanted) == ScanRuling::Ask(
            ScanQuestion::CachedProfile,
        ),
        facts.cached_profile matches Some(Some(p)) ==> scanned_profile(facts, wanted) == p@
            && scan_ruling(facts, policy, wanted) == ScanRuling::Indexed,
        facts.cached_profile matches Some(None) ==> profile_source(facts) == ProfileSource::Built,
{
}

/// A link is indexed with its target for a hash, with no size, and under the kind
/// of a link; it is never hashed.
pub proof fn law_links_hold_their_targets(
    facts: &ScanFacts,
    policy: &ExcludePolicy,
    row: FileRecord,
    wanted: bool,
)
    requires
        facts.look matches WalkLook::Entry { kind, path, rel_path } && kind == WalkKind::Symlink,
        facts.stat is Some,
        facts.stat->0 is Stat,
        is_row(row, facts, wanted),
    ensures
        scan_ruling(facts, policy, wanted) != ScanRuling::Ask(ScanQuestion::Hash),
        row.file_type@ == "symlink"@,
        row.size == 0,
        facts.target matches Some(TargetLook::Target(t)) ==> opt_text(row.fast_hash) == Some(t@),
{
}

/// The row of a file holds what the walk and the file's metadata gave.
pub proof fn law_row_of_a_file(
    facts: &ScanFacts,
    policy: &ExcludePolicy,
    rel: Seq<char>,
    size: u64,
    mtime_ns: i64,
    row: FileRecord,
    wanted: bool,
)
    requires
        finds_file(facts, policy, rel, size, mtime_ns),
        is_row(row, facts, wanted),
    ensures
        row.rel_path@ == rel,
        row.file_type@ == "file"@,
        row.size == size,
        row.mtime_ns == mtime_ns,
        opt_text(row.fast_hash) == hash_of(facts, wanted),
{
}

/// What is indexed: files and links that the policy lets through, once their
/// metadata could be read. Folders and all else are passed over.
pub proof fn law_what_is_indexed(facts: &ScanFacts, policy: &ExcludePolicy, wanted: bool)
    ensures
        facts.look is Failed ==> scan_ruling(facts, policy, wanted) == ScanRuling::Failed,
        facts.look matches WalkLook::Entry { kind, path, rel_path } ==> {
            &&& kind == WalkKind::Directory || kind == WalkKind::Other <==> scan_ruling(
                facts,
                policy,
                wanted,
            ) == ScanRuling::Passed
            &&& (kind == WalkKind::File || kind == WalkKind::Symlink) && rel_path is Err
                ==> scan_ruling(facts, policy, wanted) == ScanRuling::Failed
            &&& (kind == WalkKind::File || kind == WalkKind::Symlink) && rel_path is Ok ==> (
            excluded(rel_path->Ok_0@, *policy) <==> scan_ruling(facts, policy, wanted)
                == ScanRuling::Excluded)
            &&& (kind == WalkKind::File || kind == WalkKind::Symlink) && rel_path is Ok
                && !excluded(
                rel_path->Ok_0@,
                *policy,
            ) ==> (facts.stat is None <==> scan_ruling(facts, policy, wanted) == ScanRuling::Ask(
                ScanQuestion::Stat,
            ))
            &&& (facts.stat matches Some(s) && s is Failed) && (kind == WalkKind::File || kind
                == WalkKind::Symlink) && rel_path is Ok && !excluded(rel_path->Ok_0@, *policy)
                ==> scan_ruling(facts, policy, wanted) == ScanRuling::Failed
        },
{
}

/// What each entry adds to the totals.
pub proof fn law_scan_counts_each_entry(
    before: ScanTotals,
    after: ScanTotals,
    facts: &ScanFacts,
    policy: &ExcludePolicy,
    rel: Seq<char>,
    size: u64,
    mtime_ns: i64,
)
    requires
        finds_file(facts, policy, rel, size, mtime_ns),
        facts.hash is Some,
        scan_counted(before, after, facts, ScanRuling::Indexed, true),
    ensures
        after.files == before.files + 1,
        after.symlinks == before.symlinks,
        after.excluded == before.excluded,
        after.errors == before.errors,
        ({
            let kept = facts.stored matches Some(Some(row)) && row.file_type@ == "file"@ && row.size
                == size && row.mtime_ns == mtime_ns && row.fast_hash is Some;
            &&& kept ==> after.reused == before.reused + 1 && after.hashed == before.hashed
            &&& !kept ==> after.reused == before.reused && after.hashed == before.hashed + 1
        }),
{
}

/// An entry that is left out, fails or is passed over counts as that alone.
pub proof fn law_scan_counts_the_rest(
    before: ScanTotals,
    after: ScanTotals,
    facts: &ScanFacts,
    ruled: ScanRuling,
    wanted: bool,
)
    requires
        scan_counted(before, after, facts, ruled, wanted),
        ruled == ScanRuling::Passed || ruled == ScanRuling::Excluded || ruled == ScanRuling::Failed,
    ensures
        after.files == before.files,
        after.hashed == before.hashed,
        after.reused == before.reused,
        after.profiles_reused == before.profiles_reused,
        after.cache_hits == before.cache_hits,
        after.cache_misses == before.cache_misses,
        after.profiles_recomputed == before.profiles_recomputed,
        ruled == ScanRuling::Excluded ==> after.excluded == before.excluded + 1 && after.errors
            == before.errors,
        ruled == ScanRuling::Failed ==> after.errors == before.errors + 1 && after.excluded
            == before.excluded,
        ruled == ScanRuling::Passed ==> after.errors == before.errors && after.excluded
            == before.excluded,
{
}

/// The profile of an entry that is built has, beside what its name and size
/// tell, the signature of its text where that was read, and of a binary a
/// descriptor with the samples of its bytes.
pub proof fn law_content_adds_to_a_profile(facts: &ScanFacts, wanted: bool, text: String)
    requires
        facts.content == Some(Some(text)),
        !plain_profile(facts, wanted).is_binary,
        plain_profile(facts, wanted).language != "unknown"@,
        plain_profile(facts, wanted).language != "symlink"@,
    ensures
        built_profile(facts, wanted).text_signature == Some(
            semantic_signature(
                plain_profile(facts, wanted).language,
                plain_profile(facts, wanted).normalized_name,
                text@,
            ),
        ),
        built_profile(facts, wanted).language == plain_profile(facts, wanted).language,
        built_profile(facts, wanted).normalized_name == plain_profile(facts,
            wanted).normalized_name,
        built_profile(facts, wanted).size_class == plain_profile(facts, wanted).size_class,
{
}

/// What is told of an entry that cannot be read names the step that failed, the
/// path and the fault.
pub proof fn law_faults_are_told(facts: &ScanFacts)
    ensures
        facts.look matches WalkLook::Failed(e) ==> failure_of(facts) == "[scan] walk failed: "@
            + e@,
        facts.look matches WalkLook::Entry { kind, path, rel_path: Err(e) } ==> failure_of(facts)
            == "[scan] strip-prefix failed: "@ + path@ + ": "@ + e@,
        facts.look matches WalkLook::Entry { kind, path, rel_path: Ok(_) } ==> (
        facts.stat matches Some(StatLook::Failed(e)) ==> failure_of(facts)
            == "[scan] stat failed: "@ + path@ + ": "@ + e@),
        facts.look matches WalkLook::Entry { kind, path, rel_path: Ok(_) } ==> !(
        facts.stat matches Some(StatLook::Failed(_))) ==> (
        facts.target matches Some(TargetLook::Failed(e)) ==> failure_of(facts)
            == "[scan] read-link failed: "@ + path@ + ": "@ + e@),
{
}

/// What is told before a scan: the label, the root and whether files are hashed;
/// then what is left out, and the markers, where there are any.
pub proof fn law_scan_opens_with(
    label: Seq<char>,
    root: Seq<char>,
    hash: bool,
    excludes: Seq<Seq<char>>,
    markers: Seq<Seq<char>>,
)
    ensures
        ({
            let lines = scan_opening(label, root, hash, excludes, markers);
            let first = "[scan] label="@ + label + " root="@ + root + " hash="@ + (if hash {
                "true"@
            } else {
                "false"@
            });
            &&& lines.len() > 0 && lines[0] == first
            &&& excludes.len() > 0 ==> lines.contains("[scan] excludes="@ + comma_list(excludes))
            &&& markers.len() > 0 ==> lines.contains(
                "[scan] exclude-if-present markers="@ + comma_list(markers),
            )
            &&& excludes.len() == 0 && markers.len() == 0 ==> lines.len() == 1
        }),
{
    broadcast use vstd::seq_lib::lemma_seq_concat_contains_all_elements;

    let a = "[scan] excludes="@ + comma_list(excludes);
    let b = "[scan] exclude-if-present markers="@ + comma_list(markers);
    assert(seq![a][0] == a);
    assert(seq![b][0] == b);
}

} // verus!
