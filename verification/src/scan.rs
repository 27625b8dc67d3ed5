//! What a scan does with each entry of a tree.
//!
//! For each entry that the walk gives, a scan asks what it has to know, one
//! question after another, until what is known settles the entry.

use crate::compat_run::{add_excludes, added, comma_list, join_commas};
use crate::fingerprint::{
    binary_descriptor_of, build_file_fingerprint_profile, infer_binary_descriptor, profile_of,
    FileFingerprintProfile, Profile,
};
use crate::number::{decimal, decimal_chars};
use crate::policy::{excluded, normal_excludes, should_exclude_path, ExcludePolicy};
use crate::progress::bool_text;
use crate::record::FileRecord;
use crate::semantic::{infer_semantic_text_signature_from_content, semantic_signature};
use crate::text::{
    concat2, concat4, copy_opt, extend, extend_str, from_chars, opt_str, opt_text, same, texts,
    to_chars,
};
use vstd::prelude::*;

verus! {

// ---------------------------------------------------------------------------
// Before the walk
// ---------------------------------------------------------------------------

/// Adds paths to leave out to a policy, which is in force once it holds
/// anything.
pub fn prepare_policy(policy: &mut ExcludePolicy, prefixes: &Vec<String>)
    requires
        old(policy).wf(),
    ensures
        final(policy).wf(),
        texts(final(policy).directory_prefixes@) == added(
            texts(old(policy).directory_prefixes@),
            normal_excludes(texts(prefixes@)),
        ),
        final(policy).folder_name_additions == old(policy).folder_name_additions,
        final(policy).subtree_overrides == old(policy).subtree_overrides,
        final(policy).enabled == (old(policy).enabled || final(policy).directory_prefixes@.len() > 0
            || final(policy).folder_name_additions@.len() > 0
            || final(policy).subtree_overrides.key_seq().len() > 0),
{
    let enabled = policy.enabled;
    add_excludes(policy, prefixes);
    proof {
        lemma_added_len(texts(old(policy).directory_prefixes@), normal_excludes(texts(prefixes@)));
        assert(texts(policy.directory_prefixes@).len() == policy.directory_prefixes@.len());
    }
    policy.enabled = enabled || policy.directory_prefixes.len() > 0
        || policy.folder_name_additions.len() > 0 || !policy.subtree_overrides.is_empty();
}

proof fn lemma_added_len(base: Seq<Seq<char>>, more: Seq<Seq<char>>)
    ensures
        added(base, more).len() >= base.len(),
    decreases more.len(),
{
    if more.len() > 0 {
        lemma_added_len(base, more.drop_last());
    }
}

/// The time of a scan: it is later than that of the scan before.
pub fn scan_time(now_ns: i64, previous: Option<i64>) -> (r: i64)
    requires
        previous matches Some(p) ==> p < i64::MAX,
    ensures
        previous matches Some(p) ==> r > p && (now_ns > p ==> r == now_ns) && (now_ns <= p ==> r
            == p + 1),
        previous is None ==> r == now_ns,
{
    match previous {
        Some(p) => if now_ns <= p {
            p + 1
        } else {
            now_ns
        },
        None => now_ns,
    }
}

/// What is told before the walk.
pub open spec fn scan_opening(
    label: Seq<char>,
    root: Seq<char>,
    hash: bool,
    excludes: Seq<Seq<char>>,
    markers: Seq<Seq<char>>,
) -> Seq<Seq<char>> {
    seq!["[scan] label="@ + label + " root="@ + root + " hash="@ + bool_text(hash)] + (if excludes.len()
        > 0 {
        seq!["[scan] excludes="@ + comma_list(excludes)]
    } else {
        Seq::<Seq<char>>::empty()
    }) + (if markers.len() > 0 {
        seq!["[scan] exclude-if-present markers="@ + comma_list(markers)]
    } else {
        Seq::<Seq<char>>::empty()
    })
}

/// What is told before the walk.
pub fn tell_scan(
    label: &str,
    root: &str,
    hash: bool,
    excludes: &Vec<String>,
    markers: &Vec<String>,
) -> (r: Vec<String>)
    ensures
        texts(r@) == scan_opening(label@, root@, hash, texts(excludes@), texts(markers@)),
{
    let mut out = to_chars("[scan] label=");
    extend_str(&mut out, label);
    extend_str(&mut out, " root=");
    extend_str(&mut out, root);
    extend_str(&mut out, " hash=");
    extend_str(&mut out, if hash { "true" } else { "false" });
    let mut r: Vec<String> = Vec::new();
    r.push(from_chars(&out));
    if excludes.len() > 0 {
        let mut out = to_chars("[scan] excludes=");
        extend(&mut out, &join_commas(excludes));
        r.push(from_chars(&out));
    }
    if markers.len() > 0 {
        let mut out = to_chars("[scan] exclude-if-present markers=");
        extend(&mut out, &join_commas(markers));
        r.push(from_chars(&out));
    }
    proof {
        assert(texts(excludes@).len() == excludes@.len());
        assert(texts(markers@).len() == markers@.len());
        assert(texts(r@) =~= scan_opening(label@, root@, hash, texts(excludes@), texts(markers@)));
    }
    r
}

// ---------------------------------------------------------------------------
// What is known of an entry
// ---------------------------------------------------------------------------

#[derive(Clone, Copy, Debug, PartialEq, Eq, Structural)]
pub enum WalkKind {
    File,
    Symlink,
    Directory,
    Other,
}

/// What the walk gives.
#[derive(Debug)]
pub enum WalkLook {
    Failed(String),
    /// An entry, its full path, and its path below the root or why it has none.
    Entry { kind: WalkKind, path: String, rel_path: Result<String, String> },
}

/// The size and the time of an entry, or why they cannot be had.
#[derive(Debug)]
pub enum StatLook {
    Stat { size: u64, mtime_ns: Option<i64> },
    Failed(String),
}

/// Where a link leads, or why it cannot be read.
#[derive(Debug)]
pub enum TargetLook {
    Target(String),
    Failed(String),
}

/// What is known of an entry.
#[derive(Debug)]
pub struct ScanFacts {
    pub look: WalkLook,
    pub stat: Option<StatLook>,
    pub target: Option<TargetLook>,
    /// The row that the index holds.
    pub stored: Option<Option<FileRecord>>,
    pub hash: Option<String>,
    /// The profile that the index holds.
    pub stored_profile: Option<Option<FileFingerprintProfile>>,
    /// The profile that the cache holds.
    pub cached_profile: Option<Option<FileFingerprintProfile>>,
    /// The signature of the file's samples.
    pub samples: Option<Option<String>>,
    /// The file's text, where it is short enough.
    pub content: Option<Option<String>>,
}

impl ScanFacts {
    /// What is known once the walk gave an entry.
    pub fn of(look: WalkLook) -> (r: Self)
        ensures
            r.look == look,
            forall|q: ScanQuestion| !#[trigger] scan_answered(&r, q),
    {
        ScanFacts {
            look,
            stat: None,
            target: None,
            stored: None,
            hash: None,
            stored_profile: None,
            cached_profile: None,
            samples: None,
            content: None,
        }
    }
}

/// What a scan has to know before it can go on.
#[derive(Clone, Copy, Debug, PartialEq, Eq, Structural)]
pub enum ScanQuestion {
    Stat,
    Target,
    StoredRow,
    Hash,
    StoredProfile,
    CachedProfile,
    Samples,
    Content,
}

/// Whether a question has its answer.
pub open spec fn scan_answered(facts: &ScanFacts, q: ScanQuestion) -> bool {
    match q {
        ScanQuestion::Stat => facts.stat is Some,
        ScanQuestion::Target => facts.target is Some,
        ScanQuestion::StoredRow => facts.stored is Some,
        ScanQuestion::Hash => facts.hash is Some,
        ScanQuestion::StoredProfile => facts.stored_profile is Some,
        ScanQuestion::CachedProfile => facts.cached_profile is Some,
        ScanQuestion::Samples => facts.samples is Some,
        ScanQuestion::Content => facts.content is Some,
    }
}

pub open spec fn is_link(facts: &ScanFacts) -> bool {
    facts.look matches WalkLook::Entry { kind, .. } && kind == WalkKind::Symlink
}

/// The path of an entry below the root.
pub open spec fn rel_path_of(facts: &ScanFacts) -> Seq<char> {
    match facts.look {
        WalkLook::Entry { rel_path: Ok(p), .. } => p@,
        _ => Seq::empty(),
    }
}

/// The kind of an entry in the index.
pub open spec fn type_of(facts: &ScanFacts) -> Seq<char> {
    if is_link(facts) {
        "symlink"@
    } else {
        "file"@
    }
}

/// The size of an entry; a link has none.
pub open spec fn size_of(facts: &ScanFacts) -> u64 {
    match facts.stat {
        Some(StatLook::Stat { size, .. }) => if is_link(facts) {
            0
        } else {
            size
        },
        _ => 0,
    }
}

/// The time of an entry, zero where it is not known.
pub open spec fn time_of(facts: &ScanFacts) -> i64 {
    match facts.stat {
        Some(StatLook::Stat { mtime_ns: Some(t), .. }) => t,
        _ => 0,
    }
}

pub open spec fn target_of(facts: &ScanFacts) -> Option<Seq<char>> {
    match facts.target {
        Some(TargetLook::Target(t)) => Some(t@),
        _ => None,
    }
}

/// The row that the index holds, where it has one.
pub open spec fn stored_row(facts: &ScanFacts) -> Option<FileRecord> {
    match facts.stored {
        Some(row) => row,
        None => None,
    }
}

/// Whether the entry is as the index has it.
pub open spec fn unchanged(facts: &ScanFacts) -> bool {
    match stored_row(facts) {
        Some(row) => row.file_type@ == type_of(facts) && row.size == size_of(facts) && row.mtime_ns
            == time_of(facts),
        None => false,
    }
}

/// Where the hash of an entry comes from. That of a link is its target.
#[derive(Clone, Copy, Debug, PartialEq, Eq, Structural)]
pub enum HashSource {
    /// It is the one that the index holds.
    Reused,
    /// It is the target of the link.
    Target,
    /// It is computed.
    Computed,
    /// There is none.
    Absent,
}

pub open spec fn hash_source(facts: &ScanFacts, wanted: bool) -> HashSource {
    if is_link(facts) {
        if unchanged(facts) && opt_text(stored_row(facts)->0.fast_hash) == target_of(facts) {
            HashSource::Reused
        } else {
            HashSource::Target
        }
    } else if unchanged(facts) && (!wanted || stored_row(facts)->0.fast_hash is Some) {
        HashSource::Reused
    } else if wanted {
        HashSource::Computed
    } else {
        HashSource::Absent
    }
}

/// The hash of an entry.
pub open spec fn hash_of(facts: &ScanFacts, wanted: bool) -> Option<Seq<char>> {
    match hash_source(facts, wanted) {
        HashSource::Reused => opt_text(stored_row(facts)->0.fast_hash),
        HashSource::Target => target_of(facts),
        HashSource::Computed => opt_text(facts.hash),
        HashSource::Absent => None,
    }
}

/// Where the profile of an entry comes from.
#[derive(Clone, Copy, Debug, PartialEq, Eq, Structural)]
pub enum ProfileSource {
    Stored,
    Cached,
    Built,
}

pub open spec fn profile_source(facts: &ScanFacts) -> ProfileSource {
    if unchanged(facts) && facts.stored_profile is Some && facts.stored_profile->0 is Some {
        ProfileSource::Stored
    } else if facts.cached_profile is Some && facts.cached_profile->0 is Some {
        ProfileSource::Cached
    } else {
        ProfileSource::Built
    }
}

/// The profile of an entry by its name and size alone.
pub open spec fn plain_profile(facts: &ScanFacts, wanted: bool) -> Profile {
    profile_of(rel_path_of(facts), type_of(facts), size_of(facts), hash_of(facts, wanted))
}

/// Whether the text of a file of this profile is read.
pub open spec fn is_read(p: Profile) -> bool {
    !p.is_binary && p.language != "unknown"@ && p.language != "symlink"@
}

/// The answer to a question that may have none.
pub open spec fn flat(s: Option<Option<String>>) -> Option<Seq<char>> {
    match s {
        Some(s) => opt_text(s),
        None => None,
    }
}

/// The profile of an entry, with what its bytes or its text add.
pub open spec fn built_profile(facts: &ScanFacts, wanted: bool) -> Profile {
    let p = plain_profile(facts, wanted);
    Profile {
        binary_descriptor: if p.is_binary {
            Some(
                binary_descriptor_of(
                    rel_path_of(facts),
                    Some(p.ext),
                    p.archive_family,
                    p.size_class,
                    hash_of(facts, wanted),
                    flat(facts.samples),
                ),
            )
        } else {
            p.binary_descriptor
        },
        text_signature: if is_read(p) && flat(facts.content) is Some {
            Some(semantic_signature(p.language, p.normalized_name, flat(facts.content)->0))
        } else {
            p.text_signature
        },
        ..p
    }
}

/// The profile of an entry.
pub open spec fn scanned_profile(facts: &ScanFacts, wanted: bool) -> Profile {
    match profile_source(facts) {
        ProfileSource::Stored => (facts.stored_profile->0)->0@,
        ProfileSource::Cached => (facts.cached_profile->0)->0@,
        ProfileSource::Built => built_profile(facts, wanted),
    }
}

// ---------------------------------------------------------------------------
// Rulings
// ---------------------------------------------------------------------------

/// What is known of an entry comes to one of these.
#[derive(Clone, Copy, Debug, PartialEq, Eq, Structural)]
pub enum ScanRuling {
    /// It is not settled yet.
    Ask(ScanQuestion),
    /// It is none that is indexed.
    Passed,
    /// The policy leaves it out.
    Excluded,
    Failed,
    Indexed,
}

/// What is known of an entry comes to this.
pub open spec fn scan_ruling(facts: &ScanFacts, policy: &ExcludePolicy, wanted: bool) -> ScanRuling {
    match facts.look {
        WalkLook::Failed(_) => ScanRuling::Failed,
        WalkLook::Entry { kind, path, rel_path } => if kind == WalkKind::Directory || kind
            == WalkKind::Other {
            ScanRuling::Passed
        } else {
            match rel_path {
                Err(_) => ScanRuling::Failed,
                Ok(rel) => if excluded(rel@, *policy) {
                    ScanRuling::Excluded
                } else {
                    read_ruling(facts, wanted)
                },
            }
        },
    }
}

/// What is known of an entry that is to be indexed comes to this.
pub open spec fn read_ruling(facts: &ScanFacts, wanted: bool) -> ScanRuling {
    if facts.stat is None {
        ScanRuling::Ask(ScanQuestion::Stat)
    } else if facts.stat->0 is Failed {
        ScanRuling::Failed
    } else if is_link(facts) && facts.target is None {
        ScanRuling::Ask(ScanQuestion::Target)
    } else if is_link(facts) && facts.target->0 is Failed {
        ScanRuling::Failed
    } else if facts.stored is None {
        ScanRuling::Ask(ScanQuestion::StoredRow)
    } else if hash_source(facts, wanted) == HashSource::Computed && facts.hash is None {
        ScanRuling::Ask(ScanQuestion::Hash)
    } else if unchanged(facts) && facts.stored_profile is None {
        ScanRuling::Ask(ScanQuestion::StoredProfile)
    } else if profile_source(facts) != ProfileSource::Stored && facts.cached_profile is None {
        ScanRuling::Ask(ScanQuestion::CachedProfile)
    } else if profile_source(facts) == ProfileSource::Built && plain_profile(facts, wanted).is_binary
        && facts.samples is None {
        ScanRuling::Ask(ScanQuestion::Samples)
    } else if profile_source(facts) == ProfileSource::Built && is_read(
        plain_profile(facts, wanted),
    ) && facts.content is None {
        ScanRuling::Ask(ScanQuestion::Content)
    } else {
        ScanRuling::Indexed
    }
}

fn link_test(facts: &ScanFacts) -> (r: bool)
    ensures
        r == is_link(facts),
{
    match &facts.look {
        WalkLook::Entry { kind, .. } => *kind == WalkKind::Symlink,
        _ => false,
    }
}

fn kind_name(facts: &ScanFacts) -> (r: &'static str)
    ensures
        r@ == type_of(facts),
{
    if link_test(facts) {
        "symlink"
    } else {
        "file"
    }
}

fn entry_size(facts: &ScanFacts) -> (r: u64)
    ensures
        r == size_of(facts),
{
    match &facts.stat {
        Some(StatLook::Stat { size, .. }) => if link_test(facts) {
            0
        } else {
            *size
        },
        _ => 0,
    }
}

fn entry_time(facts: &ScanFacts) -> (r: i64)
    ensures
        r == time_of(facts),
{
    match &facts.stat {
        Some(StatLook::Stat { mtime_ns: Some(t), .. }) => *t,
        _ => 0,
    }
}

fn is_unchanged(facts: &ScanFacts) -> (r: bool)
    ensures
        r == unchanged(facts),
{
    match &facts.stored {
        Some(Some(row)) => same(row.file_type.as_str(), kind_name(facts)) && row.size
            == entry_size(facts) && row.mtime_ns == entry_time(facts),
        _ => false,
    }
}

/// The hash that the index holds.
fn stored_hash(facts: &ScanFacts) -> (r: Option<&String>)
    ensures
        (match r {
            Some(h) => Some(h@),
            None => None,
        }) == (match stored_row(facts) {
            Some(row) => opt_text(row.fast_hash),
            None => None,
        }),
{
    match &facts.stored {
        Some(Some(row)) => match &row.fast_hash {
            Some(h) => Some(h),
            None => None,
        },
        _ => None,
    }
}

fn link_target(facts: &ScanFacts) -> (r: Option<&String>)
    ensures
        (match r {
            Some(h) => Some(h@),
            None => None,
        }) == target_of(facts),
{
    match &facts.target {
        Some(TargetLook::Target(t)) => Some(t),
        _ => None,
    }
}

fn find_hash_source(facts: &ScanFacts, wanted: bool) -> (r: HashSource)
    ensures
        r == hash_source(facts, wanted),
{
    let as_before = is_unchanged(facts);
    if link_test(facts) {
        let reused = as_before && match (stored_hash(facts), link_target(facts)) {
            (Some(a), Some(b)) => same(a.as_str(), b.as_str()),
            (None, None) => true,
            _ => false,
        };
        if reused {
            HashSource::Reused
        } else {
            HashSource::Target
        }
    } else if as_before && (!wanted || stored_hash(facts).is_some()) {
        HashSource::Reused
    } else if wanted {
        HashSource::Computed
    } else {
        HashSource::Absent
    }
}

fn copy_ref(s: Option<&String>) -> (r: Option<String>)
    ensures
        opt_text(r) == match s {
            Some(h) => Some(h@),
            None => None,
        },
{
    match s {
        Some(h) => Some(h.clone()),
        None => None,
    }
}

/// The hash of an entry.
pub fn find_hash(facts: &ScanFacts, wanted: bool) -> (r: Option<String>)
    ensures
        opt_text(r) == hash_of(facts, wanted),
{
    match find_hash_source(facts, wanted) {
        HashSource::Reused => copy_ref(stored_hash(facts)),
        HashSource::Target => copy_ref(link_target(facts)),
        HashSource::Computed => copy_opt(&facts.hash),
        HashSource::Absent => None,
    }
}

fn find_profile_source(facts: &ScanFacts) -> (r: ProfileSource)
    ensures
        r == profile_source(facts),
{
    if is_unchanged(facts) {
        if let Some(Some(_)) = &facts.stored_profile {
            return ProfileSource::Stored;
        }
    }
    match &facts.cached_profile {
        Some(Some(_)) => ProfileSource::Cached,
        _ => ProfileSource::Built,
    }
}

fn entry_path(facts: &ScanFacts) -> (r: String)
    ensures
        r@ == rel_path_of(facts),
{
    match &facts.look {
        WalkLook::Entry { rel_path: Ok(p), .. } => p.clone(),
        _ => {
            let nothing: Vec<char> = Vec::new();
            assert(nothing@ =~= Seq::empty());
            from_chars(&nothing)
        },
    }
}

fn as_ref(s: &Option<String>) -> (r: Option<&str>)
    ensures
        opt_str(r) == opt_text(*s),
{
    match s {
        Some(s) => Some(s.as_str()),
        None => None,
    }
}

/// The row of an entry in the index, as far as it is known.
pub open spec fn is_row(row: FileRecord, facts: &ScanFacts, wanted: bool) -> bool {
    &&& row.rel_path@ == rel_path_of(facts)
    &&& row.file_type@ == type_of(facts)
    &&& row.size == size_of(facts)
    &&& row.mtime_ns == time_of(facts)
    &&& opt_text(row.fast_hash) == hash_of(facts, wanted)
}

/// The row of an entry in the index, as far as it is known.
pub fn find_row(facts: &ScanFacts, wanted: bool) -> (r: FileRecord)
    ensures
        is_row(r, facts, wanted),
{
    FileRecord {
        rel_path: entry_path(facts),
        file_type: from_chars(&to_chars(kind_name(facts))),
        size: entry_size(facts),
        mtime_ns: entry_time(facts),
        fast_hash: find_hash(facts, wanted),
    }
}

/// The profile of an entry by its name and size alone.
pub fn find_plain_profile(facts: &ScanFacts, wanted: bool) -> (r: FileFingerprintProfile)
    ensures
        r@ == plain_profile(facts, wanted),
{
    let hash = find_hash(facts, wanted);
    build_file_fingerprint_profile(
        entry_path(facts).as_str(),
        kind_name(facts),
        entry_size(facts),
        as_ref(&hash),
    )
}

fn read_test(p: &FileFingerprintProfile) -> (r: bool)
    ensures
        r == is_read(p@),
{
    !p.is_binary && !same(p.language.as_str(), "unknown") && !same(p.language.as_str(), "symlink")
}

fn rule_read(facts: &ScanFacts, wanted: bool) -> (r: ScanRuling)
    ensures
        r == read_ruling(facts, wanted),
{
    match &facts.stat {
        None => {
            return ScanRuling::Ask(ScanQuestion::Stat);
        },
        Some(StatLook::Failed(_)) => {
            return ScanRuling::Failed;
        },
        _ => {},
    }
    if link_test(facts) {
        match &facts.target {
            None => {
                return ScanRuling::Ask(ScanQuestion::Target);
            },
            Some(TargetLook::Failed(_)) => {
                return ScanRuling::Failed;
            },
            _ => {},
        }
    }
    if facts.stored.is_none() {
        return ScanRuling::Ask(ScanQuestion::StoredRow);
    }
    if find_hash_source(facts, wanted) == HashSource::Computed && facts.hash.is_none() {
        return ScanRuling::Ask(ScanQuestion::Hash);
    }
    if is_unchanged(facts) && facts.stored_profile.is_none() {
        return ScanRuling::Ask(ScanQuestion::StoredProfile);
    }
    let source = find_profile_source(facts);
    if source != ProfileSource::Stored && facts.cached_profile.is_none() {
        return ScanRuling::Ask(ScanQuestion::CachedProfile);
    }
    if source == ProfileSource::Built {
        let p = find_plain_profile(facts, wanted);
        if p.is_binary && facts.samples.is_none() {
            return ScanRuling::Ask(ScanQuestion::Samples);
        }
        if read_test(&p) && facts.content.is_none() {
            return ScanRuling::Ask(ScanQuestion::Content);
        }
    }
    ScanRuling::Indexed
}

/// What to do with an entry, by what is known of it.
pub fn rule_scan(facts: &ScanFacts, policy: &ExcludePolicy, wanted: bool) -> (r: ScanRuling)
    requires
        policy.wf(),
    ensures
        r == scan_ruling(facts, policy, wanted),
{
    match &facts.look {
        WalkLook::Failed(_) => ScanRuling::Failed,
        WalkLook::Entry { kind, path: _, rel_path } => {
            if *kind == WalkKind::Directory || *kind == WalkKind::Other {
                return ScanRuling::Passed;
            }
            match rel_path {
                Err(_) => ScanRuling::Failed,
                Ok(rel) => if should_exclude_path(rel.as_str(), policy) {
                    ScanRuling::Excluded
                } else {
                    rule_read(facts, wanted)
                },
            }
        },
    }
}

// ---------------------------------------------------------------------------
// Settling
// ---------------------------------------------------------------------------

/// What a scan has done so far.
#[derive(Clone, Copy, Debug, PartialEq, Eq, Structural)]
pub struct ScanTotals {
    pub files: usize,
    pub symlinks: usize,
    pub hashed: usize,
    pub reused: usize,
    pub profiles_reused: usize,
    pub cache_hits: usize,
    pub cache_misses: usize,
    pub profiles_recomputed: usize,
    pub excluded: usize,
    pub errors: usize,
}

pub open spec fn one_where(b: bool) -> int {
    if b {
        1
    } else {
        0
    }
}

/// The totals after an entry.
pub open spec fn scan_counted(
    before: ScanTotals,
    after: ScanTotals,
    facts: &ScanFacts,
    ruling: ScanRuling,
    wanted: bool,
) -> bool {
    let indexed = ruling == ScanRuling::Indexed;
    let hash = hash_source(facts, wanted);
    let profile = profile_source(facts);
    &&& after.files == before.files + one_where(indexed)
    &&& after.symlinks == before.symlinks + one_where(is_link(facts))
    &&& after.hashed == before.hashed + one_where(indexed && hash == HashSource::Computed)
    &&& after.reused == before.reused + one_where(indexed && hash == HashSource::Reused)
    &&& after.profiles_reused == before.profiles_reused + one_where(
        indexed && profile == ProfileSource::Stored,
    )
    &&& after.cache_hits == before.cache_hits + one_where(
        indexed && profile == ProfileSource::Cached,
    )
    &&& after.cache_misses == before.cache_misses + one_where(
        indexed && profile == ProfileSource::Built,
    )
    &&& after.profiles_recomputed == before.profiles_recomputed + one_where(
        indexed && profile == ProfileSource::Built,
    )
    &&& after.excluded == before.excluded + one_where(ruling == ScanRuling::Excluded)
    &&& after.errors == before.errors + one_where(ruling == ScanRuling::Failed)
}

/// What is to be told and written of an entry.
#[derive(Debug)]
pub struct ScanSettlement {
    /// What went wrong.
    pub note: Option<String>,
    /// The row and the profile to write.
    pub entry: Option<(FileRecord, FileFingerprintProfile)>,
    /// Whether the profile goes to the cache too.
    pub to_cache: bool,
    /// How far the scan has come, once in five hundred files.
    pub line: Option<String>,
}

/// What is told of an entry that cannot be read.
pub open spec fn failure_of(facts: &ScanFacts) -> Seq<char> {
    match facts.look {
        WalkLook::Failed(e) => "[scan] walk failed: "@ + e@,
        WalkLook::Entry { kind, path, rel_path: Err(e) } => "[scan] strip-prefix failed: "@ + path@
            + ": "@ + e@,
        WalkLook::Entry { kind, path, rel_path: Ok(_) } => match facts.stat {
            Some(StatLook::Failed(e)) => "[scan] stat failed: "@ + path@ + ": "@ + e@,
            _ => match facts.target {
                Some(TargetLook::Failed(e)) => "[scan] read-link failed: "@ + path@ + ": "@ + e@,
                _ => Seq::empty(),
            },
        },
    }
}

fn tell_failure(facts: &ScanFacts) -> (r: String)
    ensures
        r@ == failure_of(facts),
{
    match &facts.look {
        WalkLook::Failed(e) => concat2("[scan] walk failed: ", e.as_str()),
        WalkLook::Entry { kind: _, path, rel_path: Err(e) } => concat4(
            "[scan] strip-prefix failed: ",
            path.as_str(),
            ": ",
            e.as_str(),
        ),
        WalkLook::Entry { kind: _, path, rel_path: Ok(_) } => {
            if let Some(StatLook::Failed(e)) = &facts.stat {
                return concat4("[scan] stat failed: ", path.as_str(), ": ", e.as_str());
            }
            if let Some(TargetLook::Failed(e)) = &facts.target {
                return concat4("[scan] read-link failed: ", path.as_str(), ": ", e.as_str());
            }
            let nothing: Vec<char> = Vec::new();
            assert(nothing@ =~= Seq::empty());
            from_chars(&nothing)
        },
    }
}

fn flatten(s: &Option<Option<String>>) -> (r: Option<String>)
    ensures
        opt_text(r) == flat(*s),
{
    match s {
        Some(s) => copy_opt(s),
        None => None,
    }
}

impl FileFingerprintProfile {
    pub fn copy(&self) -> (r: Self)
        ensures
            r@ == self@,
    {
        FileFingerprintProfile {
            normalized_name: self.normalized_name.clone(),
            normalized_folder: self.normalized_folder.clone(),
            ext: self.ext.clone(),
            is_binary: self.is_binary,
            is_archive: self.is_archive,
            archive_family: copy_opt(&self.archive_family),
            language: self.language.clone(),
            size_class: self.size_class.clone(),
            binary_signature: copy_opt(&self.binary_signature),
            binary_descriptor: copy_opt(&self.binary_descriptor),
            text_signature: copy_opt(&self.text_signature),
            archive_signature: copy_opt(&self.archive_signature),
        }
    }
}

fn find_built_profile(facts: &ScanFacts, wanted: bool) -> (r: FileFingerprintProfile)
    ensures
        r@ == built_profile(facts, wanted),
{
    let mut p = find_plain_profile(facts, wanted);
    let read = read_test(&p);
    if p.is_binary {
        let hash = find_hash(facts, wanted);
        let samples = flatten(&facts.samples);
        let descriptor = infer_binary_descriptor(
            entry_path(facts).as_str(),
            Some(p.ext.as_str()),
            as_ref(&p.archive_family),
            p.size_class.as_str(),
            as_ref(&hash),
            as_ref(&samples),
        );
        p.binary_descriptor = Some(descriptor);
    }
    if read {
        if let Some(content) = flatten(&facts.content) {
            let signature = infer_semantic_text_signature_from_content(
                p.language.as_str(),
                p.normalized_name.as_str(),
                content.as_str(),
            );
            p.text_signature = Some(signature);
        }
    }
    p
}

fn find_profile(facts: &ScanFacts, wanted: bool) -> (r: FileFingerprintProfile)
    ensures
        r@ == scanned_profile(facts, wanted),
{
    if is_unchanged(facts) {
        if let Some(Some(p)) = &facts.stored_profile {
            return p.copy();
        }
    }
    if let Some(Some(p)) = &facts.cached_profile {
        return p.copy();
    }
    find_built_profile(facts, wanted)
}

/// What is told once in five hundred files.
pub open spec fn scan_line(t: ScanTotals) -> Seq<char> {
    "[scan] files="@ + decimal(t.files as nat) + " hashed="@ + decimal(t.hashed as nat)
        + counts_text(t)
}

/// The counts that follow those of the files.
pub open spec fn counts_text(t: ScanTotals) -> Seq<char> {
    " reused="@ + decimal(t.reused as nat) + " fp_reused="@ + decimal(t.profiles_reused as nat)
        + " fp_cache_hits="@ + decimal(t.cache_hits as nat) + " fp_cache_misses="@ + decimal(
        t.cache_misses as nat,
    ) + " fp_recomputed="@ + decimal(t.profiles_recomputed as nat) + " excluded="@ + decimal(
        t.excluded as nat,
    ) + " errors="@ + decimal(t.errors as nat)
}

fn push_count(out: &mut Vec<char>, lead: &str, n: usize)
    ensures
        final(out)@ == old(out)@ + lead@ + decimal(n as nat),
{
    extend_str(out, lead);
    extend(out, &decimal_chars(n as u128));
}

fn count_chars(t: &ScanTotals) -> (r: Vec<char>)
    ensures
        r@ == counts_text(*t),
{
    let mut out = to_chars(" reused=");
    extend(&mut out, &decimal_chars(t.reused as u128));
    push_count(&mut out, " fp_reused=", t.profiles_reused);
    push_count(&mut out, " fp_cache_hits=", t.cache_hits);
    push_count(&mut out, " fp_cache_misses=", t.cache_misses);
    push_count(&mut out, " fp_recomputed=", t.profiles_recomputed);
    push_count(&mut out, " excluded=", t.excluded);
    push_count(&mut out, " errors=", t.errors);
    out
}

impl ScanTotals {
    /// Every file that was indexed has its profile from one of three sources,
    /// and its hash from one.
    pub open spec fn wf(&self) -> bool {
        &&& self.profiles_reused + self.cache_hits + self.profiles_recomputed == self.files
        &&& self.cache_misses == self.profiles_recomputed
        &&& self.hashed + self.reused <= self.files
    }

    /// There is room for another entry.
    pub open spec fn has_room(&self) -> bool {
        self.files < usize::MAX && self.symlinks < usize::MAX && self.excluded < usize::MAX
            && self.errors < usize::MAX
    }

    pub fn new() -> (r: Self)
        ensures
            r.wf(),
            r == (ScanTotals {
                files: 0,
                symlinks: 0,
                hashed: 0,
                reused: 0,
                profiles_reused: 0,
                cache_hits: 0,
                cache_misses: 0,
                profiles_recomputed: 0,
                excluded: 0,
                errors: 0,
            }),
    {
        ScanTotals {
            files: 0,
            symlinks: 0,
            hashed: 0,
            reused: 0,
            profiles_reused: 0,
            cache_hits: 0,
            cache_misses: 0,
            profiles_recomputed: 0,
            excluded: 0,
            errors: 0,
        }
    }

    /// Settles an entry.
    pub fn settle(&mut self, facts: &ScanFacts, policy: &ExcludePolicy, wanted: bool) -> (r:
        ScanSettlement)
        requires
            policy.wf(),
            old(self).wf(),
            old(self).has_room(),
            !(scan_ruling(facts, policy, wanted) is Ask),
        ensures
            final(self).wf(),
            ({
                let ruled = scan_ruling(facts, policy, wanted);
                &&& scan_counted(*old(self), *final(self), facts, ruled, wanted)
                &&& opt_text(r.note) == if ruled == ScanRuling::Failed {
                    Some(failure_of(facts))
                } else {
                    None
                }
                &&& (r.entry is Some) == (ruled == ScanRuling::Indexed)
                &&& r.entry matches Some((row, profile)) ==> {
                    &&& is_row(row, facts, wanted)
                    &&& profile@ == scanned_profile(facts, wanted)
                }
                &&& r.to_cache == (ruled == ScanRuling::Indexed && profile_source(facts)
                    == ProfileSource::Built)
                &&& opt_text(r.line) == if ruled == ScanRuling::Indexed && final(self).files % 500
                    == 0 {
                    Some(scan_line(*final(self)))
                } else {
                    None
                }
            }),
    {
        let ruled = rule_scan(facts, policy, wanted);
        if link_test(facts) {
            self.symlinks = self.symlinks + 1;
        }
        match ruled {
            ScanRuling::Failed => {
                self.errors = self.errors + 1;
                return ScanSettlement {
                    note: Some(tell_failure(facts)),
                    entry: None,
                    to_cache: false,
                    line: None,
                };
            },
            ScanRuling::Excluded => {
                self.excluded = self.excluded + 1;
                return ScanSettlement { note: None, entry: None, to_cache: false, line: None };
            },
            ScanRuling::Indexed => {},
            _ => {
                return ScanSettlement { note: None, entry: None, to_cache: false, line: None };
            },
        }
        match find_hash_source(facts, wanted) {
            HashSource::Reused => {
                self.reused = self.reused + 1;
            },
            HashSource::Computed => {
                self.hashed = self.hashed + 1;
            },
            _ => {},
        }
        let source = find_profile_source(facts);
        match source {
            ProfileSource::Stored => {
                self.profiles_reused = self.profiles_reused + 1;
            },
            ProfileSource::Cached => {
                self.cache_hits = self.cache_hits + 1;
            },
            ProfileSource::Built => {
                self.cache_misses = self.cache_misses + 1;
                self.profiles_recomputed = self.profiles_recomputed + 1;
            },
        }
        self.files = self.files + 1;
        let row = find_row(facts, wanted);
        let line = if self.files % 500 == 0 {
            let mut out = to_chars("[scan] files=");
            extend(&mut out, &decimal_chars(self.files as u128));
            push_count(&mut out, " hashed=", self.hashed);
            extend(&mut out, &count_chars(self));
            Some(from_chars(&out))
        } else {
            None
        };
        ScanSettlement {
            note: None,
            entry: Some((row, find_profile(facts, wanted))),
            to_cache: source == ProfileSource::Built,
            line,
        }
    }

    /// What is told at the end of a scan, and of its cache.
    pub fn closing(&self) -> (r: (String, String))
        ensures
            (r.0)@ == "[scan] summary: files="@ + decimal(self.files as nat) + " symlinks="@
                + decimal(self.symlinks as nat) + " hashed="@ + decimal(self.hashed as nat)
                + counts_text(*self),
            (r.1)@ == "[scan] cache-summary: fp_cache_hits="@ + decimal(self.cache_hits as nat)
                + " fp_cache_misses="@ + decimal(self.cache_misses as nat) + " fp_reused="@
                + decimal(self.profiles_reused as nat) + " fp_recomputed="@ + decimal(
                self.profiles_recomputed as nat,
            ),
    {
        let mut out = to_chars("[scan] summary: files=");
        extend(&mut out, &decimal_chars(self.files as u128));
        push_count(&mut out, " symlinks=", self.symlinks);
        push_count(&mut out, " hashed=", self.hashed);
        extend(&mut out, &count_chars(self));
        let mut cache = to_chars("[scan] cache-summary: fp_cache_hits=");
        extend(&mut cache, &decimal_chars(self.cache_hits as u128));
        push_count(&mut cache, " fp_cache_misses=", self.cache_misses);
        push_count(&mut cache, " fp_reused=", self.profiles_reused);
        push_count(&mut cache, " fp_recomputed=", self.profiles_recomputed);
        (from_chars(&out), from_chars(&cache))
    }
}

// ---------------------------------------------------------------------------
// Laws
// ---------------------------------------------------------------------------

/// A question is asked only while it has no answer.
pub proof fn law_scan_asks_once(facts: &ScanFacts, policy: &ExcludePolicy, wanted: bool)
    ensures
        scan_ruling(facts, policy, wanted) matches ScanRuling::Ask(q) ==> !scan_answered(facts, q),
{
}

/// Nothing that the policy leaves out is looked at or indexed.
pub proof fn law_left_out_is_not_read(facts: &ScanFacts, policy: &ExcludePolicy, wanted: bool)
    requires
        facts.look matches WalkLook::Entry { rel_path: Ok(rel), .. } ==> excluded(rel@, *policy),
    ensures
        scan_ruling(facts, policy, wanted) != ScanRuling::Indexed,
        !(scan_ruling(facts, policy, wanted) is Ask),
{
}

/// A file that is as the index has it, with a hash where one is wanted, is
/// not hashed again.
pub proof fn law_unchanged_is_not_hashed(facts: &ScanFacts, policy: &ExcludePolicy, wanted: bool)
    requires
        unchanged(facts),
        wanted ==> stored_row(facts)->0.fast_hash is Some,
    ensures
        scan_ruling(facts, policy, wanted) != ScanRuling::Ask(ScanQuestion::Hash),
        !is_link(facts) ==> hash_of(facts, wanted) == opt_text(stored_row(facts)->0.fast_hash),
{
}

/// Once it has been written, an entry that does not change is read as
/// unchanged, so that its hash and its profile are used again.
pub proof fn law_second_scan_reuses(
    first: &ScanFacts,
    row: FileRecord,
    second: &ScanFacts,
    wanted: bool,
)
    requires
        row.rel_path@ == rel_path_of(first),
        row.file_type@ == type_of(first),
        row.size == size_of(first),
        row.mtime_ns == time_of(first),
        opt_text(row.fast_hash) == hash_of(first, wanted),
        second.look == first.look,
        second.stat == first.stat,
        second.target == first.target,
        second.stored == Some(Some(row)),
        hash_source(first, wanted) == HashSource::Computed ==> first.hash is Some,
        is_link(first) ==> target_of(first) is Some,
    ensures
        unchanged(second),
        hash_source(second, wanted) == HashSource::Reused,
        hash_of(second, wanted) == hash_of(first, wanted),
{
}

/// A scan that wants hashes gives every file one, and every link its target.
pub proof fn law_wanted_hash_is_there(facts: &ScanFacts, policy: &ExcludePolicy)
    requires
        scan_ruling(facts, policy, true) == ScanRuling::Indexed,
    ensures
        hash_of(facts, true) is Some,
{
}

} // verus!
