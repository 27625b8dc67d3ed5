//! Matching the folders of two trees by what their signatures share.

use crate::dossier::{sound, sum_of, FolderSignature};
use crate::order::{all_ranked, in_order, sort, Ranked};
use crate::ratio::{lemma_lt_asymmetric, lemma_lt_negatively_transitive, Ratio};
use crate::text::{
    before_first, find_char, from_chars, lemma_text_lt_asymmetric, lemma_text_lt_irreflexive,
    lemma_text_lt_total, lemma_text_lt_transitive, same, take_before, text_before, text_lt,
    to_chars,
};
use crate::textmap::{lemma_ascending_distinct, TextMap};
use vstd::prelude::*;

verus! {

// ---------------------------------------------------------------------------
// Confidence
// ---------------------------------------------------------------------------

/// What to do with a match.
#[derive(Clone, Copy, Debug, PartialEq, Eq, Structural)]
pub enum DossierAction {
    Apply,
    Review,
    Manual,
}

/// How sure a match is, from the least to the most.
#[derive(Clone, Copy, Debug, PartialEq, Eq, Structural)]
pub enum DossierConfidenceTier {
    Manual,
    Possible,
    Similar,
    Identical,
}

impl DossierConfidenceTier {
    /// The tiers counted from the least sure.
    pub open spec fn level(self) -> int {
        match self {
            DossierConfidenceTier::Manual => 0,
            DossierConfidenceTier::Possible => 1,
            DossierConfidenceTier::Similar => 2,
            DossierConfidenceTier::Identical => 3,
        }
    }

    fn level_of(self) -> (r: u8)
        ensures
            r == self.level(),
    {
        match self {
            DossierConfidenceTier::Manual => 0,
            DossierConfidenceTier::Possible => 1,
            DossierConfidenceTier::Similar => 2,
            DossierConfidenceTier::Identical => 3,
        }
    }

    /// Whether a match of this tier is at least as sure as asked for.
    pub fn should_emit(self, minimum: DossierConfidenceTier) -> (r: bool)
        ensures
            r == (self.level() >= minimum.level()),
    {
        self.level_of() >= minimum.level_of()
    }

    /// The name of the tier.
    pub open spec fn name(self) -> Seq<char> {
        match self {
            DossierConfidenceTier::Manual => "manual"@,
            DossierConfidenceTier::Possible => "possible"@,
            DossierConfidenceTier::Similar => "similar"@,
            DossierConfidenceTier::Identical => "identical"@,
        }
    }

    pub fn as_str(self) -> (r: &'static str)
        ensures
            r@ == self.name(),
    {
        match self {
            DossierConfidenceTier::Manual => "manual",
            DossierConfidenceTier::Possible => "possible",
            DossierConfidenceTier::Similar => "similar",
            DossierConfidenceTier::Identical => "identical",
        }
    }

    /// What to do next with a match of this tier, in words.
    pub open spec fn advice(self) -> Seq<char> {
        match self {
            DossierConfidenceTier::Identical => "promote with high confidence"@,
            DossierConfidenceTier::Similar => "review and likely apply"@,
            DossierConfidenceTier::Possible => "review before applying"@,
            DossierConfidenceTier::Manual => "manual inspection required"@,
        }
    }

    pub fn next_action(self) -> (r: &'static str)
        ensures
            r@ == self.advice(),
    {
        match self {
            DossierConfidenceTier::Identical => "promote with high confidence",
            DossierConfidenceTier::Similar => "review and likely apply",
            DossierConfidenceTier::Possible => "review before applying",
            DossierConfidenceTier::Manual => "manual inspection required",
        }
    }

    pub fn action(self) -> (r: DossierAction)
        ensures
            r == (match self {
                DossierConfidenceTier::Identical => DossierAction::Apply,
                DossierConfidenceTier::Manual => DossierAction::Manual,
                _ => DossierAction::Review,
            }),
    {
        match self {
            DossierConfidenceTier::Identical => DossierAction::Apply,
            DossierConfidenceTier::Similar => DossierAction::Review,
            DossierConfidenceTier::Possible => DossierAction::Review,
            DossierConfidenceTier::Manual => DossierAction::Manual,
        }
    }
}

/// A folder of the left tree and one of the right that may be the same.
#[derive(Debug)]
pub struct DossierMatch {
    pub left_folder: String,
    pub right_folder: String,
    /// The weight that both share, in thousandths.
    pub overlap_weight: u128,
    pub left_weight: u128,
    pub right_weight: u128,
    /// The shared weight to the weight of both together.
    pub overlap_ratio: Ratio,
    pub shared_rel_file_count: usize,
    pub shared_exact_file_name_count: usize,
    pub shared_normalized_file_name_count: usize,
    pub shared_file_stem_count: usize,
    pub shared_file_ext_count: usize,
    pub shared_ext_stem_count: usize,
    pub shared_hash_count: usize,
    pub shared_folder_token_count: usize,
    pub shared_normalized_parent_folder_count: usize,
    pub shared_binaryity_count: usize,
    pub shared_archive_family_count: usize,
    pub shared_language_count: usize,
    pub shared_size_class_count: usize,
    pub confidence_tier: DossierConfidenceTier,
}

/// Whether a match is at least as close as `num / den`.
pub open spec fn as_close_as(m: DossierMatch, num: u128, den: u128) -> bool {
    !m.overlap_ratio.lt(&Ratio { num, den })
}

/// How sure a match is.
pub open spec fn confidence_of(m: DossierMatch) -> DossierConfidenceTier {
    if as_close_as(m, 4, 5) && m.shared_hash_count >= 2 && m.shared_normalized_file_name_count
        >= 1 {
        DossierConfidenceTier::Identical
    } else if as_close_as(m, 7, 20) && (m.shared_hash_count >= 1
        || m.shared_normalized_parent_folder_count >= 1) {
        DossierConfidenceTier::Similar
    } else if as_close_as(m, 3, 20) && (m.shared_file_ext_count > 0 || m.shared_ext_stem_count > 0
        || m.shared_rel_file_count > 0 || m.shared_hash_count > 0 || m.shared_folder_token_count
        > 0 || m.shared_normalized_parent_folder_count > 0) {
        DossierConfidenceTier::Possible
    } else {
        DossierConfidenceTier::Manual
    }
}

pub fn dossier_confidence_tier(match_record: &DossierMatch) -> (r: DossierConfidenceTier)
    requires
        match_record.overlap_ratio.wf(),
    ensures
        r == confidence_of(*match_record),
{
    let m = match_record;
    if !m.overlap_ratio.is_less(&Ratio { num: 4, den: 5 }) && m.shared_hash_count >= 2
        && m.shared_normalized_file_name_count >= 1 {
        return DossierConfidenceTier::Identical;
    }
    if !m.overlap_ratio.is_less(&Ratio { num: 7, den: 20 }) && (m.shared_hash_count >= 1
        || m.shared_normalized_parent_folder_count >= 1) {
        return DossierConfidenceTier::Similar;
    }
    if !m.overlap_ratio.is_less(&Ratio { num: 3, den: 20 }) && (m.shared_file_ext_count > 0
        || m.shared_ext_stem_count > 0 || m.shared_rel_file_count > 0 || m.shared_hash_count > 0
        || m.shared_folder_token_count > 0 || m.shared_normalized_parent_folder_count > 0) {
        return DossierConfidenceTier::Possible;
    }
    DossierConfidenceTier::Manual
}

/// How many matches there are of each tier.
#[derive(Clone, Copy, Debug, PartialEq, Eq, Structural)]
pub struct DossierConfidenceCounts {
    pub manual: usize,
    pub possible: usize,
    pub similar: usize,
    pub identical: usize,
}

impl DossierConfidenceCounts {
    pub fn new() -> (r: Self)
        ensures
            r.manual == 0 && r.possible == 0 && r.similar == 0 && r.identical == 0,
    {
        DossierConfidenceCounts { manual: 0, possible: 0, similar: 0, identical: 0 }
    }

    pub open spec fn count(&self, tier: DossierConfidenceTier) -> usize {
        match tier {
            DossierConfidenceTier::Manual => self.manual,
            DossierConfidenceTier::Possible => self.possible,
            DossierConfidenceTier::Similar => self.similar,
            DossierConfidenceTier::Identical => self.identical,
        }
    }

    /// Counts one more match of a tier.
    pub fn bump(&mut self, tier: DossierConfidenceTier)
        requires
            old(self).count(tier) < usize::MAX,
        ensures
            final(self).count(tier) == old(self).count(tier) + 1,
            forall|other: DossierConfidenceTier|
                other != tier ==> #[trigger] final(self).count(other) == old(self).count(other),
    {
        match tier {
            DossierConfidenceTier::Manual => {
                self.manual = self.manual + 1;
            },
            DossierConfidenceTier::Possible => {
                self.possible = self.possible + 1;
            },
            DossierConfidenceTier::Similar => {
                self.similar = self.similar + 1;
            },
            DossierConfidenceTier::Identical => {
                self.identical = self.identical + 1;
            },
        }
    }
}

// ---------------------------------------------------------------------------
// Token families
// ---------------------------------------------------------------------------

/// What a token speaks of.
#[derive(Clone, Copy, Debug, PartialEq, Eq, Structural)]
pub enum DossierTokenFamily {
    ExactFileName,
    NormalizedFileName,
    FileStem,
    FileExtension,
    ExtensionStem,
    Hash,
    Binaryity,
    ArchiveFamily,
    ArchiveSignature,
    Language,
    SizeClass,
    NormalizedFolder,
    Folder,
    Other,
}

/// What a token speaks of: its label says.
pub open spec fn family_of(token: Seq<char>) -> DossierTokenFamily {
    let label = before_first(token, ':');
    if token == "BIN:binary"@ || token == "TEXT:text"@ {
        DossierTokenFamily::Binaryity
    } else if !token.contains(':') {
        DossierTokenFamily::Other
    } else if label == "N"@ {
        DossierTokenFamily::ExactFileName
    } else if label == "NF"@ {
        DossierTokenFamily::NormalizedFileName
    } else if label == "S"@ {
        DossierTokenFamily::FileStem
    } else if label == "E"@ {
        DossierTokenFamily::FileExtension
    } else if label == "ES"@ {
        DossierTokenFamily::ExtensionStem
    } else if label == "H"@ {
        DossierTokenFamily::Hash
    } else if label == "ARCH"@ || label == "ARCHFAM"@ {
        DossierTokenFamily::ArchiveFamily
    } else if label == "ARCHSIG"@ || label == "ARCHPAY"@ || label == "ARCHVIRT"@ || label
        == "ARCHMEM"@ || label == "ARCHDEPTH"@ {
        DossierTokenFamily::ArchiveSignature
    } else if label == "LANG"@ || label == "TEXTSIG"@ {
        DossierTokenFamily::Language
    } else if label == "SIZE"@ || label == "SZB"@ {
        DossierTokenFamily::SizeClass
    } else if label == "BINSIG"@ {
        DossierTokenFamily::Binaryity
    } else if label == "NFP"@ {
        DossierTokenFamily::NormalizedFolder
    } else if label == "F"@ || label == "FD"@ || label == "FP"@ {
        DossierTokenFamily::Folder
    } else {
        DossierTokenFamily::Other
    }
}

pub fn dossier_token_family(token: &str) -> (r: DossierTokenFamily)
    ensures
        r == family_of(token@),
{
    if same(token, "BIN:binary") || same(token, "TEXT:text") {
        return DossierTokenFamily::Binaryity;
    }
    let chars = to_chars(token);
    if find_char(&chars, ':').is_none() {
        return DossierTokenFamily::Other;
    }
    assert(token@.contains(':'));
    let label = take_before(&chars, ':');
    let label = from_chars(&label);
    let label = label.as_str();
    if same(label, "N") {
        DossierTokenFamily::ExactFileName
    } else if same(label, "NF") {
        DossierTokenFamily::NormalizedFileName
    } else if same(label, "S") {
        DossierTokenFamily::FileStem
    } else if same(label, "E") {
        DossierTokenFamily::FileExtension
    } else if same(label, "ES") {
        DossierTokenFamily::ExtensionStem
    } else if same(label, "H") {
        DossierTokenFamily::Hash
    } else if same(label, "ARCH") || same(label, "ARCHFAM") {
        DossierTokenFamily::ArchiveFamily
    } else if same(label, "ARCHSIG") || same(label, "ARCHPAY") || same(label, "ARCHVIRT") || same(
        label,
        "ARCHMEM",
    ) || same(label, "ARCHDEPTH") {
        DossierTokenFamily::ArchiveSignature
    } else if same(label, "LANG") || same(label, "TEXTSIG") {
        DossierTokenFamily::Language
    } else if same(label, "SIZE") || same(label, "SZB") {
        DossierTokenFamily::SizeClass
    } else if same(label, "BINSIG") {
        DossierTokenFamily::Binaryity
    } else if same(label, "NFP") {
        DossierTokenFamily::NormalizedFolder
    } else if same(label, "F") || same(label, "FD") || same(label, "FP") {
        DossierTokenFamily::Folder
    } else {
        DossierTokenFamily::Other
    }
}

impl DossierTokenFamily {
    spec fn slot(self) -> int {
        match self {
            DossierTokenFamily::ExactFileName => 0,
            DossierTokenFamily::NormalizedFileName => 1,
            DossierTokenFamily::FileStem => 2,
            DossierTokenFamily::FileExtension => 3,
            DossierTokenFamily::ExtensionStem => 4,
            DossierTokenFamily::Hash => 5,
            DossierTokenFamily::Binaryity => 6,
            DossierTokenFamily::ArchiveFamily => 7,
            DossierTokenFamily::ArchiveSignature => 8,
            DossierTokenFamily::Language => 9,
            DossierTokenFamily::SizeClass => 10,
            DossierTokenFamily::NormalizedFolder => 11,
            DossierTokenFamily::Folder => 12,
            DossierTokenFamily::Other => 13,
        }
    }

    fn slot_of(self) -> (r: usize)
        ensures
            r == self.slot(),
            r < 14,
    {
        match self {
            DossierTokenFamily::ExactFileName => 0,
            DossierTokenFamily::NormalizedFileName => 1,
            DossierTokenFamily::FileStem => 2,
            DossierTokenFamily::FileExtension => 3,
            DossierTokenFamily::ExtensionStem => 4,
            DossierTokenFamily::Hash => 5,
            DossierTokenFamily::Binaryity => 6,
            DossierTokenFamily::ArchiveFamily => 7,
            DossierTokenFamily::ArchiveSignature => 8,
            DossierTokenFamily::Language => 9,
            DossierTokenFamily::SizeClass => 10,
            DossierTokenFamily::NormalizedFolder => 11,
            DossierTokenFamily::Folder => 12,
            DossierTokenFamily::Other => 13,
        }
    }
}

// ---------------------------------------------------------------------------
// What two signatures share
// ---------------------------------------------------------------------------

/// The weight that two maps share in a token.
pub open spec fn common_weight(token: Seq<char>, weight: u128, r: Map<Seq<char>, u128>) -> nat {
    if r.contains_key(token) {
        if weight <= r[token] {
            weight as nat
        } else {
            r[token] as nat
        }
    } else {
        0
    }
}

/// The weight that the first `n` tokens of one signature share with another.
pub open spec fn shared_weight(l: TextMap<u128>, r: Map<Seq<char>, u128>, n: int) -> nat
    decreases n,
{
    if n <= 0 {
        0
    } else {
        shared_weight(l, r, n - 1) + common_weight(l.key_seq()[n - 1], l.value_seq()[n - 1], r)
    }
}

/// The weight that they share in the tokens of a family.
pub open spec fn family_weight(
    l: TextMap<u128>,
    r: Map<Seq<char>, u128>,
    n: int,
    family: DossierTokenFamily,
) -> nat
    decreases n,
{
    if n <= 0 {
        0
    } else if family_of(l.key_seq()[n - 1]) == family {
        family_weight(l, r, n - 1, family) + common_weight(
            l.key_seq()[n - 1],
            l.value_seq()[n - 1],
            r,
        )
    } else {
        family_weight(l, r, n - 1, family)
    }
}

/// The number of tokens of a family that they share.
pub open spec fn family_count(
    l: TextMap<u128>,
    r: Map<Seq<char>, u128>,
    n: int,
    family: DossierTokenFamily,
) -> nat
    decreases n,
{
    if n <= 0 {
        0
    } else if family_of(l.key_seq()[n - 1]) == family && r.contains_key(l.key_seq()[n - 1]) {
        family_count(l, r, n - 1, family) + 1
    } else {
        family_count(l, r, n - 1, family)
    }
}

/// The weight that two folders share.
pub open spec fn overlap(l: FolderSignature, r: FolderSignature) -> nat {
    shared_weight(l.tokens, r.tokens@, l.tokens.key_seq().len() as int)
}

/// The weight of two folders together, what they share counted once.
pub open spec fn union_weight(l: FolderSignature, r: FolderSignature) -> int {
    l.total_weight + r.total_weight - overlap(l, r)
}

/// The weight that two folders share in a family.
pub open spec fn overlap_in(l: FolderSignature, r: FolderSignature, f: DossierTokenFamily) -> nat {
    family_weight(l.tokens, r.tokens@, l.tokens.key_seq().len() as int, f)
}

/// The number of tokens of a family that two folders share.
pub open spec fn shared_in(l: FolderSignature, r: FolderSignature, f: DossierTokenFamily) -> nat {
    family_count(l.tokens, r.tokens@, l.tokens.key_seq().len() as int, f)
}

/// What two signatures share.
struct Shared {
    total: u128,
    weights: Vec<u128>,
    counts: Vec<usize>,
}

impl Shared {
    spec fn holds(&self, l: TextMap<u128>, r: Map<Seq<char>, u128>, n: int) -> bool {
        &&& self.total == shared_weight(l, r, n)
        &&& self.weights@.len() == 14
        &&& self.counts@.len() == 14
        &&& forall|f: DossierTokenFamily|
            self.weights@[#[trigger] f.slot()] == family_weight(l, r, n, f)
        &&& forall|f: DossierTokenFamily|
            self.counts@[#[trigger] f.slot()] == family_count(l, r, n, f)
    }

    fn weight(&self, f: DossierTokenFamily) -> (r: u128)
        requires
            self.weights@.len() == 14,
        ensures
            r == self.weights@[f.slot()],
    {
        self.weights[f.slot_of()]
    }

    fn count(&self, f: DossierTokenFamily) -> (r: usize)
        requires
            self.counts@.len() == 14,
        ensures
            r == self.counts@[f.slot()],
    {
        self.counts[f.slot_of()]
    }
}

proof fn lemma_shared_bounds(l: TextMap<u128>, r: Map<Seq<char>, u128>, n: int, f: DossierTokenFamily)
    requires
        l.wf(),
        0 <= n <= l.key_seq().len(),
    ensures
        shared_weight(l, r, n) <= sum_of(l.value_seq().take(n)),
        family_weight(l, r, n, f) <= shared_weight(l, r, n),
        family_count(l, r, n, f) <= n,
    decreases n,
{
    if n > 0 {
        lemma_shared_bounds(l, r, n - 1, f);
        assert(l.value_seq().take(n).drop_last() =~= l.value_seq().take(n - 1));
    }
}

proof fn lemma_sum_prefix(v: Seq<u128>, n: int)
    requires
        0 <= n <= v.len(),
    ensures
        sum_of(v.take(n)) <= sum_of(v),
    decreases v.len(),
{
    if n < v.len() {
        lemma_sum_prefix(v.drop_last(), n);
        assert(v.drop_last().take(n) =~= v.take(n));
    } else {
        assert(v.take(n) =~= v);
    }
}

fn find_shared(l: &FolderSignature, r: &FolderSignature) -> (s: Shared)
    requires
        l.wf(),
        r.wf(),
    ensures
        s.holds(l.tokens, r.tokens@, l.tokens.key_seq().len() as int),
        s.total <= l.total_weight,
{
    let mut s = Shared { total: 0, weights: Vec::new(), counts: Vec::new() };
    let mut k: usize = 0;
    while k < 14
        invariant
            k <= 14,
            s.total == 0,
            s.weights@.len() == k,
            s.counts@.len() == k,
            forall|i: int| 0 <= i < k ==> s.weights@[i] == 0,
            forall|i: int| 0 <= i < k ==> s.counts@[i] == 0,
        decreases 14 - k,
    {
        s.weights.push(0);
        s.counts.push(0);
        k = k + 1;
    }
    let mut n: usize = 0;
    while n < l.tokens.len()
        invariant
            l.wf(),
            r.wf(),
            n <= l.tokens.key_seq().len(),
            s.holds(l.tokens, r.tokens@, n as int),
        decreases l.tokens.key_seq().len() - n,
    {
        let token = l.tokens.key_at(n);
        let left: u128 = *l.tokens.value_at(n);
        let family = dossier_token_family(token.as_str());
        match r.tokens.get(token.as_str()) {
            Some(right) => {
                let common: u128 = if left <= *right {
                    left
                } else {
                    *right
                };
                let slot = family.slot_of();
                proof {
                    lemma_shared_bounds(l.tokens, r.tokens@, n as int, family);
                    lemma_shared_bounds(l.tokens, r.tokens@, n + 1, family);
                    lemma_sum_prefix(l.tokens.value_seq(), n + 1);
                }
                let ghost before = s;
                s.total = s.total + common;
                let w: u128 = s.weights[slot];
                s.weights.set(slot, w + common);
                let c: usize = s.counts[slot];
                s.counts.set(slot, c + 1);
                proof {
                    assert forall|f: DossierTokenFamily|
                        s.weights@[#[trigger] f.slot()] == family_weight(
                            l.tokens,
                            r.tokens@,
                            n + 1,
                            f,
                        ) by {
                        assert(before.weights@[f.slot()] == family_weight(
                            l.tokens,
                            r.tokens@,
                            n as int,
                            f,
                        ));
                    }
                    assert forall|f: DossierTokenFamily|
                        s.counts@[#[trigger] f.slot()] == family_count(
                            l.tokens,
                            r.tokens@,
                            n + 1,
                            f,
                        ) by {
                        assert(before.counts@[f.slot()] == family_count(
                            l.tokens,
                            r.tokens@,
                            n as int,
                            f,
                        ));
                    }
                }
            },
            None => {
                proof {
                    assert forall|f: DossierTokenFamily|
                        s.weights@[#[trigger] f.slot()] == family_weight(
                            l.tokens,
                            r.tokens@,
                            n + 1,
                            f,
                        ) by {}
                    assert forall|f: DossierTokenFamily|
                        s.counts@[#[trigger] f.slot()] == family_count(
                            l.tokens,
                            r.tokens@,
                            n + 1,
                            f,
                        ) by {}
                }
            },
        }
        n = n + 1;
    }
    proof {
        lemma_shared_bounds(l.tokens, r.tokens@, n as int, DossierTokenFamily::Other);
        lemma_sum_prefix(l.tokens.value_seq(), n as int);
    }
    s
}

// ---------------------------------------------------------------------------
// Ranking
// ---------------------------------------------------------------------------

/// Whether two folders share anything, and so may be the same.
pub open spec fn may_match(l: FolderSignature, r: FolderSignature) -> bool {
    overlap(l, r) > 0 && union_weight(l, r) > 0
}

/// What matches of equal ratio are ranked by, the most telling first.
pub open spec fn rank_values(l: FolderSignature, r: FolderSignature) -> Seq<nat> {
    seq![
        overlap(l, r),
        shared_in(l, r, DossierTokenFamily::ExactFileName),
        overlap_in(l, r, DossierTokenFamily::ExactFileName),
        shared_in(l, r, DossierTokenFamily::ExactFileName),
        overlap_in(l, r, DossierTokenFamily::Hash),
        shared_in(l, r, DossierTokenFamily::Hash),
        overlap_in(l, r, DossierTokenFamily::ArchiveSignature),
        shared_in(l, r, DossierTokenFamily::ArchiveSignature),
        overlap_in(l, r, DossierTokenFamily::NormalizedFileName),
        shared_in(l, r, DossierTokenFamily::NormalizedFileName),
        overlap_in(l, r, DossierTokenFamily::Binaryity),
        shared_in(l, r, DossierTokenFamily::Binaryity),
        overlap_in(l, r, DossierTokenFamily::ArchiveFamily),
        shared_in(l, r, DossierTokenFamily::ArchiveFamily),
        overlap_in(l, r, DossierTokenFamily::Language),
        shared_in(l, r, DossierTokenFamily::Language),
        overlap_in(l, r, DossierTokenFamily::SizeClass),
        shared_in(l, r, DossierTokenFamily::SizeClass),
        overlap_in(l, r, DossierTokenFamily::NormalizedFolder),
        shared_in(l, r, DossierTokenFamily::NormalizedFolder),
        overlap_in(l, r, DossierTokenFamily::FileExtension),
        overlap_in(l, r, DossierTokenFamily::ExtensionStem),
        overlap_in(l, r, DossierTokenFamily::FileStem),
        overlap_in(l, r, DossierTokenFamily::Folder),
    ]
}

/// Whether the first of the values in which two sequences differ is greater.
pub open spec fn exceeds(a: Seq<nat>, b: Seq<nat>) -> bool
    decreases a.len(),
{
    if a.len() == 0 || b.len() == 0 {
        false
    } else if a[0] != b[0] {
        a[0] > b[0]
    } else {
        exceeds(a.drop_first(), b.drop_first())
    }
}

proof fn lemma_exceeds_asymmetric(a: Seq<nat>, b: Seq<nat>)
    requires
        exceeds(a, b),
    ensures
        !exceeds(b, a),
        a != b,
    decreases a.len(),
{
    if a[0] == b[0] {
        lemma_exceeds_asymmetric(a.drop_first(), b.drop_first());
    }
}

proof fn lemma_exceeds_total(a: Seq<nat>, b: Seq<nat>)
    requires
        a.len() == b.len(),
    ensures
        exceeds(a, b) || exceeds(b, a) || a == b,
    decreases a.len(),
{
    if a.len() > 0 {
        if a[0] == b[0] {
            lemma_exceeds_total(a.drop_first(), b.drop_first());
            if a.drop_first() == b.drop_first() {
                assert(a =~= seq![a[0]] + a.drop_first());
                assert(b =~= seq![b[0]] + b.drop_first());
            }
        }
    } else {
        assert(a =~= b);
    }
}

proof fn lemma_exceeds_transitive(a: Seq<nat>, b: Seq<nat>, c: Seq<nat>)
    requires
        exceeds(a, b),
        exceeds(b, c),
    ensures
        exceeds(a, c),
    decreases a.len(),
{
    if a[0] == b[0] && b[0] == c[0] {
        lemma_exceeds_transitive(a.drop_first(), b.drop_first(), c.drop_first());
    }
}

/// A place in the ranking of a folder's matches.
pub struct Rank {
    pub ratio: Ratio,
    pub values: Seq<nat>,
    pub folder: Seq<char>,
}

impl Rank {
    pub open spec fn wf(self) -> bool {
        self.ratio.wf() && self.values.len() == 24
    }

    /// Whether one place stands before another: by the ratio, then by the
    /// values, then by the folder, the greater first.
    pub open spec fn above(self, other: Rank) -> bool {
        ||| other.ratio.lt(&self.ratio)
        ||| !self.ratio.lt(&other.ratio) && exceeds(self.values, other.values)
        ||| !self.ratio.lt(&other.ratio) && self.values == other.values && text_lt(
            other.folder,
            self.folder,
        )
    }
}

pub proof fn lemma_above_asymmetric(a: Rank, b: Rank)
    requires
        a.above(b),
    ensures
        !b.above(a),
{
    if b.ratio.lt(&a.ratio) {
        lemma_lt_asymmetric(b.ratio, a.ratio);
    } else if exceeds(a.values, b.values) {
        lemma_exceeds_asymmetric(a.values, b.values);
    } else {
        lemma_text_lt_asymmetric(b.folder, a.folder);
        if exceeds(b.values, a.values) {
            lemma_exceeds_asymmetric(b.values, a.values);
        }
    }
}

pub proof fn lemma_above_negatively_transitive(a: Rank, b: Rank, c: Rank)
    requires
        a.wf(),
        b.wf(),
        c.wf(),
        !b.above(a),
        !c.above(b),
    ensures
        !c.above(a),
{
    // No ratio grows from one to the next.
    lemma_lt_negatively_transitive(a.ratio, b.ratio, c.ratio);
    if c.above(a) {
        assert(!a.ratio.lt(&c.ratio));
        assert(!c.ratio.lt(&a.ratio));
        // Then all three ratios are equal.
        if b.ratio.lt(&a.ratio) {
            if !c.ratio.lt(&b.ratio) {
                lemma_lt_negatively_transitive(b.ratio, c.ratio, a.ratio);
                assert(false) by {
                    if !b.ratio.lt(&c.ratio) {
                        lemma_lt_negatively_transitive(b.ratio, c.ratio, a.ratio);
                    }
                }
            } else {
                lemma_lt_negatively_transitive(c.ratio, a.ratio, b.ratio);
                lemma_lt_asymmetric(b.ratio, a.ratio);
            }
        }
        lemma_exceeds_total(a.values, b.values);
        lemma_exceeds_total(b.values, c.values);
        if c.ratio.lt(&b.ratio) {
            lemma_lt_negatively_transitive(c.ratio, a.ratio, b.ratio);
        }
        if exceeds(c.values, a.values) {
            if exceeds(a.values, b.values) {
                lemma_exceeds_transitive(c.values, a.values, b.values);
            }
        } else {
            if exceeds(a.values, b.values) {
                // a and c have equal values.
            }
            lemma_text_lt_total(a.folder, b.folder);
            lemma_text_lt_total(b.folder, c.folder);
            if text_lt(b.folder, a.folder) && text_lt(a.folder, c.folder) {
                lemma_text_lt_transitive(b.folder, a.folder, c.folder);
            }
        }
    }
}

/// Of two places of different folders one stands before the other.
pub proof fn lemma_above_total(a: Rank, b: Rank)
    requires
        a.wf(),
        b.wf(),
        a.folder != b.folder,
    ensures
        a.above(b) || b.above(a),
{
    lemma_exceeds_total(a.values, b.values);
    lemma_text_lt_total(a.folder, b.folder);
}

/// The place of a folder of the right tree among the matches of a folder of
/// the left.
pub open spec fn rank_of(l: FolderSignature, r: FolderSignature, folder: Seq<char>) -> Rank {
    Rank {
        ratio: Ratio { num: overlap(l, r) as u128, den: union_weight(l, r) as u128 },
        values: rank_values(l, r),
        folder,
    }
}

// ---------------------------------------------------------------------------
// Matches
// ---------------------------------------------------------------------------

/// Whether a match tells of two folders what their signatures share.
pub open spec fn tells_of(
    m: DossierMatch,
    left_folder: Seq<char>,
    l: FolderSignature,
    right_folder: Seq<char>,
    r: FolderSignature,
) -> bool {
    &&& m.left_folder@ == left_folder
    &&& m.right_folder@ == right_folder
    &&& m.overlap_weight == overlap(l, r)
    &&& m.left_weight == l.total_weight
    &&& m.right_weight == r.total_weight
    &&& m.overlap_ratio.num == overlap(l, r)
    &&& m.overlap_ratio.den == union_weight(l, r)
    &&& m.shared_rel_file_count == shared_in(l, r, DossierTokenFamily::ExactFileName)
    &&& m.shared_exact_file_name_count == shared_in(l, r, DossierTokenFamily::ExactFileName)
    &&& m.shared_normalized_file_name_count == shared_in(
        l,
        r,
        DossierTokenFamily::NormalizedFileName,
    )
    &&& m.shared_file_stem_count == shared_in(l, r, DossierTokenFamily::FileStem)
    &&& m.shared_file_ext_count == shared_in(l, r, DossierTokenFamily::FileExtension)
    &&& m.shared_ext_stem_count == shared_in(l, r, DossierTokenFamily::ExtensionStem)
    &&& m.shared_hash_count == shared_in(l, r, DossierTokenFamily::Hash)
    &&& m.shared_folder_token_count == shared_in(l, r, DossierTokenFamily::Folder)
    &&& m.shared_normalized_parent_folder_count == shared_in(
        l,
        r,
        DossierTokenFamily::NormalizedFolder,
    )
    &&& m.shared_binaryity_count == shared_in(l, r, DossierTokenFamily::Binaryity)
    &&& m.shared_archive_family_count == shared_in(l, r, DossierTokenFamily::ArchiveFamily)
    &&& m.shared_language_count == shared_in(l, r, DossierTokenFamily::Language)
    &&& m.shared_size_class_count == shared_in(l, r, DossierTokenFamily::SizeClass)
    &&& m.confidence_tier == confidence_of(m)
}

/// A match with its place among the matches of its left folder.
struct Candidate {
    item: DossierMatch,
    values: Vec<u128>,
    /// The index of the right folder.
    index: usize,
}

spec fn nats(v: Seq<u128>) -> Seq<nat> {
    v.map_values(|n: u128| n as nat)
}

impl Candidate {
    spec fn rank(&self) -> Rank {
        Rank {
            ratio: self.item.overlap_ratio,
            values: nats(self.values@),
            folder: self.item.right_folder@,
        }
    }
}

/// Whether the first of the values in which two sequences differ is greater.
fn values_exceed(a: &Vec<u128>, b: &Vec<u128>) -> (r: bool)
    requires
        a@.len() == b@.len(),
    ensures
        r == exceeds(nats(a@), nats(b@)),
{
    let ghost x = nats(a@);
    let ghost y = nats(b@);
    let mut i: usize = 0;
    assert(x.skip(0) =~= x);
    assert(y.skip(0) =~= y);
    while i < a.len()
        invariant
            i <= a@.len() == b@.len(),
            x == nats(a@),
            y == nats(b@),
            exceeds(x, y) == exceeds(x.skip(i as int), y.skip(i as int)),
        decreases a@.len() - i,
    {
        assert(x[i as int] == a@[i as int]);
        assert(y[i as int] == b@[i as int]);
        if a[i] != b[i] {
            return a[i] > b[i];
        }
        assert(x.skip(i as int).drop_first() =~= x.skip(i as int + 1));
        assert(y.skip(i as int).drop_first() =~= y.skip(i as int + 1));
        i = i + 1;
    }
    false
}

fn values_equal(a: &Vec<u128>, b: &Vec<u128>) -> (r: bool)
    requires
        a@.len() == b@.len(),
    ensures
        r == (nats(a@) == nats(b@)),
{
    let mut i: usize = 0;
    while i < a.len()
        invariant
            i <= a@.len() == b@.len(),
            forall|k: int| 0 <= k < i ==> a@[k] == b@[k],
        decreases a@.len() - i,
    {
        if a[i] != b[i] {
            assert(nats(a@)[i as int] != nats(b@)[i as int]);
            return false;
        }
        i = i + 1;
    }
    assert(nats(a@) =~= nats(b@));
    true
}

impl Ranked for Candidate {
    closed spec fn is_ranked(&self) -> bool {
        self.rank().wf()
    }

    closed spec fn before(&self, other: &Self) -> bool {
        self.rank().above(other.rank())
    }

    proof fn lemma_asymmetric(a: &Self, b: &Self) {
        lemma_above_asymmetric(a.rank(), b.rank());
    }

    proof fn lemma_negatively_transitive(a: &Self, b: &Self, c: &Self) {
        lemma_above_negatively_transitive(a.rank(), b.rank(), c.rank());
    }

    fn is_before(&self, other: &Self) -> (r: bool) {
        if other.item.overlap_ratio.is_less(&self.item.overlap_ratio) {
            return true;
        }
        if self.item.overlap_ratio.is_less(&other.item.overlap_ratio) {
            return false;
        }
        if values_exceed(&self.values, &other.values) {
            return true;
        }
        values_equal(&self.values, &other.values) && text_before(
            other.item.right_folder.as_str(),
            self.item.right_folder.as_str(),
        )
    }
}

/// Matches are listed by their left folder, then the closest first, then by
/// their right folder.
impl Ranked for DossierMatch {
    open spec fn is_ranked(&self) -> bool {
        self.overlap_ratio.wf()
    }

    open spec fn before(&self, other: &Self) -> bool {
        ||| text_lt(self.left_folder@, other.left_folder@)
        ||| self.left_folder@ == other.left_folder@ && listed_above(*self, *other)
    }

    proof fn lemma_asymmetric(a: &Self, b: &Self) {
        if text_lt(a.left_folder@, b.left_folder@) {
            lemma_text_lt_asymmetric(a.left_folder@, b.left_folder@);
        } else {
            lemma_text_lt_irreflexive(a.left_folder@);
            lemma_listed_asymmetric(*a, *b);
        }
    }

    proof fn lemma_negatively_transitive(a: &Self, b: &Self, c: &Self) {
        lemma_text_lt_total(a.left_folder@, b.left_folder@);
        lemma_text_lt_total(b.left_folder@, c.left_folder@);
        lemma_text_lt_irreflexive(a.left_folder@);
        if c.before(a) {
            if text_lt(c.left_folder@, a.left_folder@) {
                if text_lt(a.left_folder@, b.left_folder@) {
                    lemma_text_lt_transitive(c.left_folder@, a.left_folder@, b.left_folder@);
                }
            } else {
                if text_lt(a.left_folder@, b.left_folder@) {
                    lemma_text_lt_asymmetric(a.left_folder@, b.left_folder@);
                } else {
                    lemma_listed_negatively_transitive(*a, *b, *c);
                }
            }
        }
    }

    fn is_before(&self, other: &Self) -> (r: bool) {
        if text_before(self.left_folder.as_str(), other.left_folder.as_str()) {
            return true;
        }
        if !same(self.left_folder.as_str(), other.left_folder.as_str()) {
            return false;
        }
        if other.overlap_ratio.is_less(&self.overlap_ratio) {
            return true;
        }
        if self.overlap_ratio.is_less(&other.overlap_ratio) {
            return false;
        }
        if self.overlap_weight != other.overlap_weight {
            return self.overlap_weight > other.overlap_weight;
        }
        if self.shared_rel_file_count != other.shared_rel_file_count {
            return self.shared_rel_file_count > other.shared_rel_file_count;
        }
        text_before(self.right_folder.as_str(), other.right_folder.as_str())
    }
}

/// Whether one match of a left folder is listed above another.
pub open spec fn listed_above(a: DossierMatch, b: DossierMatch) -> bool {
    ||| b.overlap_ratio.lt(&a.overlap_ratio)
    ||| !a.overlap_ratio.lt(&b.overlap_ratio) && {
        ||| a.overlap_weight > b.overlap_weight
        ||| a.overlap_weight == b.overlap_weight && {
            ||| a.shared_rel_file_count > b.shared_rel_file_count
            ||| a.shared_rel_file_count == b.shared_rel_file_count && text_lt(
                a.right_folder@,
                b.right_folder@,
            )
        }
    }
}

proof fn lemma_listed_asymmetric(a: DossierMatch, b: DossierMatch)
    requires
        listed_above(a, b),
    ensures
        !listed_above(b, a),
{
    if text_lt(a.right_folder@, b.right_folder@) {
        lemma_text_lt_asymmetric(a.right_folder@, b.right_folder@);
    }
}

proof fn lemma_listed_negatively_transitive(a: DossierMatch, b: DossierMatch, c: DossierMatch)
    requires
        a.overlap_ratio.wf(),
        b.overlap_ratio.wf(),
        c.overlap_ratio.wf(),
        !listed_above(b, a),
        !listed_above(c, b),
    ensures
        !listed_above(c, a),
{
    lemma_lt_negatively_transitive(a.overlap_ratio, b.overlap_ratio, c.overlap_ratio);
    if listed_above(c, a) {
        // All three ratios are equal.
        if b.overlap_ratio.lt(&a.overlap_ratio) {
            if !b.overlap_ratio.lt(&c.overlap_ratio) {
                lemma_lt_negatively_transitive(b.overlap_ratio, c.overlap_ratio, a.overlap_ratio);
            }
        }
        if c.overlap_ratio.lt(&b.overlap_ratio) {
            lemma_lt_negatively_transitive(c.overlap_ratio, a.overlap_ratio, b.overlap_ratio);
        }
        lemma_text_lt_total(a.right_folder@, b.right_folder@);
        lemma_text_lt_total(b.right_folder@, c.right_folder@);
        if text_lt(c.right_folder@, a.right_folder@) && text_lt(a.right_folder@, b.right_folder@) {
            lemma_text_lt_transitive(c.right_folder@, a.right_folder@, b.right_folder@);
        }
    }
}

fn make_values(s: &Shared) -> (r: Vec<u128>)
    requires
        s.weights@.len() == 14,
        s.counts@.len() == 14,
    ensures
        r@ == seq![
            s.total,
            s.counts@[0] as u128,
            s.weights@[0],
            s.counts@[0] as u128,
            s.weights@[5],
            s.counts@[5] as u128,
            s.weights@[8],
            s.counts@[8] as u128,
            s.weights@[1],
            s.counts@[1] as u128,
            s.weights@[6],
            s.counts@[6] as u128,
            s.weights@[7],
            s.counts@[7] as u128,
            s.weights@[9],
            s.counts@[9] as u128,
            s.weights@[10],
            s.counts@[10] as u128,
            s.weights@[11],
            s.counts@[11] as u128,
            s.weights@[3],
            s.weights@[4],
            s.weights@[2],
            s.weights@[12],
        ],
{
    let mut r: Vec<u128> = Vec::new();
    r.push(s.total);
    r.push(s.counts[0] as u128);
    r.push(s.weights[0]);
    r.push(s.counts[0] as u128);
    r.push(s.weights[5]);
    r.push(s.counts[5] as u128);
    r.push(s.weights[8]);
    r.push(s.counts[8] as u128);
    r.push(s.weights[1]);
    r.push(s.counts[1] as u128);
    r.push(s.weights[6]);
    r.push(s.counts[6] as u128);
    r.push(s.weights[7]);
    r.push(s.counts[7] as u128);
    r.push(s.weights[9]);
    r.push(s.counts[9] as u128);
    r.push(s.weights[10]);
    r.push(s.counts[10] as u128);
    r.push(s.weights[11]);
    r.push(s.counts[11] as u128);
    r.push(s.weights[3]);
    r.push(s.weights[4]);
    r.push(s.weights[2]);
    r.push(s.weights[12]);
    r
}

fn make_candidate(
    left_folder: &str,
    l: &FolderSignature,
    right_folder: &str,
    r: &FolderSignature,
    index: usize,
) -> (c: Option<Candidate>)
    requires
        l.wf(),
        r.wf(),
    ensures
        c is Some <==> may_match(*l, *r),
        c is Some ==> {
            &&& tells_of(c->0.item, left_folder@, *l, right_folder@, *r)
            &&& c->0.rank() == rank_of(*l, *r, right_folder@)
            &&& c->0.index == index
            &&& c->0.is_ranked()
        },
{
    let s = find_shared(l, r);
    let union: u128 = (l.total_weight - s.total) + r.total_weight;
    if s.total == 0 || union == 0 {
        return None;
    }
    let ghost n = l.tokens.key_seq().len() as int;
    proof {
        // The slots hold what the families share.
        assert(s.holds(l.tokens, r.tokens@, n));
        assert(s.weights@[DossierTokenFamily::ExactFileName.slot()] == overlap_in(
            *l,
            *r,
            DossierTokenFamily::ExactFileName,
        ));
        assert(s.counts@[DossierTokenFamily::ExactFileName.slot()] == shared_in(
            *l,
            *r,
            DossierTokenFamily::ExactFileName,
        ));
        assert(s.weights@[DossierTokenFamily::Hash.slot()] == overlap_in(
            *l,
            *r,
            DossierTokenFamily::Hash,
        ));
        assert(s.counts@[DossierTokenFamily::Hash.slot()] == shared_in(
            *l,
            *r,
            DossierTokenFamily::Hash,
        ));
        assert(s.weights@[DossierTokenFamily::ArchiveSignature.slot()] == overlap_in(
            *l,
            *r,
            DossierTokenFamily::ArchiveSignature,
        ));
        assert(s.counts@[DossierTokenFamily::ArchiveSignature.slot()] == shared_in(
            *l,
            *r,
            DossierTokenFamily::ArchiveSignature,
        ));
        assert(s.weights@[DossierTokenFamily::NormalizedFileName.slot()] == overlap_in(
            *l,
            *r,
            DossierTokenFamily::NormalizedFileName,
        ));
        assert(s.counts@[DossierTokenFamily::NormalizedFileName.slot()] == shared_in(
            *l,
            *r,
            DossierTokenFamily::NormalizedFileName,
        ));
        assert(s.weights@[DossierTokenFamily::Binaryity.slot()] == overlap_in(
            *l,
            *r,
            DossierTokenFamily::Binaryity,
        ));
        assert(s.counts@[DossierTokenFamily::Binaryity.slot()] == shared_in(
            *l,
            *r,
            DossierTokenFamily::Binaryity,
        ));
        assert(s.weights@[DossierTokenFamily::ArchiveFamily.slot()] == overlap_in(
            *l,
            *r,
            DossierTokenFamily::ArchiveFamily,
        ));
        assert(s.counts@[DossierTokenFamily::ArchiveFamily.slot()] == shared_in(
            *l,
            *r,
            DossierTokenFamily::ArchiveFamily,
        ));
        assert(s.weights@[DossierTokenFamily::Language.slot()] == overlap_in(
            *l,
            *r,
            DossierTokenFamily::Language,
        ));
        assert(s.counts@[DossierTokenFamily::Language.slot()] == shared_in(
            *l,
            *r,
            DossierTokenFamily::Language,
        ));
        assert(s.weights@[DossierTokenFamily::SizeClass.slot()] == overlap_in(
            *l,
            *r,
            DossierTokenFamily::SizeClass,
        ));
        assert(s.counts@[DossierTokenFamily::SizeClass.slot()] == shared_in(
            *l,
            *r,
            DossierTokenFamily::SizeClass,
        ));
        assert(s.weights@[DossierTokenFamily::NormalizedFolder.slot()] == overlap_in(
            *l,
            *r,
            DossierTokenFamily::NormalizedFolder,
        ));
        assert(s.counts@[DossierTokenFamily::NormalizedFolder.slot()] == shared_in(
            *l,
            *r,
            DossierTokenFamily::NormalizedFolder,
        ));
        assert(s.weights@[DossierTokenFamily::FileExtension.slot()] == overlap_in(
            *l,
            *r,
            DossierTokenFamily::FileExtension,
        ));
        assert(s.weights@[DossierTokenFamily::ExtensionStem.slot()] == overlap_in(
            *l,
            *r,
            DossierTokenFamily::ExtensionStem,
        ));
        assert(s.weights@[DossierTokenFamily::FileStem.slot()] == overlap_in(
            *l,
            *r,
            DossierTokenFamily::FileStem,
        ));
        assert(s.weights@[DossierTokenFamily::Folder.slot()] == overlap_in(
            *l,
            *r,
            DossierTokenFamily::Folder,
        ));
    }
    let values = make_values(&s);
    assert(nats(values@) =~= rank_values(*l, *r));
    let mut item = DossierMatch {
        left_folder: left_folder.to_owned(),
        right_folder: right_folder.to_owned(),
        overlap_weight: s.total,
        left_weight: l.total_weight,
        right_weight: r.total_weight,
        overlap_ratio: Ratio { num: s.total, den: union },
        shared_rel_file_count: s.count(DossierTokenFamily::ExactFileName),
        shared_exact_file_name_count: s.count(DossierTokenFamily::ExactFileName),
        shared_normalized_file_name_count: s.count(DossierTokenFamily::NormalizedFileName),
        shared_file_stem_count: s.count(DossierTokenFamily::FileStem),
        shared_file_ext_count: s.count(DossierTokenFamily::FileExtension),
        shared_ext_stem_count: s.count(DossierTokenFamily::ExtensionStem),
        shared_hash_count: s.count(DossierTokenFamily::Hash),
        shared_folder_token_count: s.count(DossierTokenFamily::Folder),
        shared_normalized_parent_folder_count: s.count(DossierTokenFamily::NormalizedFolder),
        shared_binaryity_count: s.count(DossierTokenFamily::Binaryity),
        shared_archive_family_count: s.count(DossierTokenFamily::ArchiveFamily),
        shared_language_count: s.count(DossierTokenFamily::Language),
        shared_size_class_count: s.count(DossierTokenFamily::SizeClass),
        confidence_tier: DossierConfidenceTier::Manual,
    };
    item.confidence_tier = dossier_confidence_tier(&item);
    Some(Candidate { item, values, index })
}

/// The right folders that stand above another one among the matches of a left
/// folder.
pub open spec fn better(
    l: FolderSignature,
    right: TextMap<FolderSignature>,
    j: int,
) -> Set<int> {
    Set::new(
        |k: int|
            0 <= k < right.key_seq().len() && may_match(l, right.value_seq()[k]) && rank_of(
                l,
                right.value_seq()[k],
                right.key_seq()[k],
            ).above(rank_of(l, right.value_seq()[j], right.key_seq()[j])),
    )
}

/// Whether a right folder is one of the `top_k` best matches of a left folder.
pub open spec fn chosen(
    l: FolderSignature,
    right: TextMap<FolderSignature>,
    j: int,
    top_k: nat,
) -> bool {
    &&& 0 <= j < right.key_seq().len()
    &&& may_match(l, right.value_seq()[j])
    &&& better(l, right, j).len() < top_k
}

/// Whether candidates are the possible matches of a left folder among the
/// first `n` right folders.
spec fn are_candidates(
    v: Seq<Candidate>,
    left_folder: Seq<char>,
    l: FolderSignature,
    right: TextMap<FolderSignature>,
    n: int,
) -> bool {
    &&& forall|p: int|
        0 <= p < v.len() ==> {
            &&& (#[trigger] v[p]).is_ranked()
            &&& v[p].index < n
            &&& may_match(l, right.value_seq()[v[p].index as int])
            &&& tells_of(
                v[p].item,
                left_folder,
                l,
                right.key_seq()[v[p].index as int],
                right.value_seq()[v[p].index as int],
            )
            &&& v[p].rank() == rank_of(
                l,
                right.value_seq()[v[p].index as int],
                right.key_seq()[v[p].index as int],
            )
        }
    &&& forall|p: int, q: int|
        0 <= p < v.len() && 0 <= q < v.len() && p != q ==> (#[trigger] v[p]).index != (
        #[trigger] v[q]).index
    &&& forall|j: int|
        0 <= j < n && may_match(l, right.value_seq()[j]) ==> exists|p: int|
            0 <= p < v.len() && (#[trigger] v[p]).index == j
}

fn find_candidates(left_folder: &str, l: &FolderSignature, right: &TextMap<FolderSignature>) -> (v:
    Vec<Candidate>)
    requires
        l.wf(),
        sound(*right),
    ensures
        are_candidates(v@, left_folder@, *l, *right, right.key_seq().len() as int),
{
    let mut v: Vec<Candidate> = Vec::new();
    let mut j: usize = 0;
    while j < right.len()
        invariant
            l.wf(),
            sound(*right),
            j <= right.key_seq().len(),
            are_candidates(v@, left_folder@, *l, *right, j as int),
        decreases right.key_seq().len() - j,
    {
        let ghost before = v@;
        let c = make_candidate(left_folder, l, right.key_at(j).as_str(), right.value_at(j), j);
        match c {
            Some(c) => {
                v.push(c);
                proof {
                    assert forall|p: int, q: int|
                        0 <= p < v@.len() && 0 <= q < v@.len() && p != q implies (
                    #[trigger] v@[p]).index != (#[trigger] v@[q]).index by {
                        if p < before.len() {
                            assert(v@[p] == before[p]);
                        }
                        if q < before.len() {
                            assert(v@[q] == before[q]);
                        }
                    }
                    assert forall|k: int|
                        0 <= k < j + 1 && may_match(*l, right.value_seq()[k]) implies exists|p: int|
                        0 <= p < v@.len() && (#[trigger] v@[p]).index == k by {
                        if k < j {
                            let p = choose|p: int|
                                0 <= p < before.len() && (#[trigger] before[p]).index == k;
                            assert(v@[p].index == k);
                        } else {
                            assert(v@[before.len() as int].index == k);
                        }
                    }
                    assert forall|p: int| 0 <= p < v@.len() implies {
                        &&& (#[trigger] v@[p]).is_ranked()
                        &&& v@[p].index < j + 1
                        &&& may_match(*l, right.value_seq()[v@[p].index as int])
                        &&& tells_of(
                            v@[p].item,
                            left_folder@,
                            *l,
                            right.key_seq()[v@[p].index as int],
                            right.value_seq()[v@[p].index as int],
                        )
                        &&& v@[p].rank() == rank_of(
                            *l,
                            right.value_seq()[v@[p].index as int],
                            right.key_seq()[v@[p].index as int],
                        )
                    } by {
                        if p < before.len() {
                            assert(v@[p] == before[p]);
                        }
                    }
                }
            },
            None => {},
        }
        j = j + 1;
    }
    v
}

proof fn lemma_same_members<T>(v: Seq<T>, w: Seq<T>)
    requires
        v.to_multiset() == w.to_multiset(),
    ensures
        forall|p: int| 0 <= p < w.len() ==> v.contains(#[trigger] w[p]),
        forall|p: int| 0 <= p < v.len() ==> w.contains(#[trigger] v[p]),
        v.no_duplicates() ==> w.no_duplicates(),
{
    broadcast use vstd::seq_lib::group_to_multiset_ensures;

    assert forall|p: int| 0 <= p < w.len() implies v.contains(#[trigger] w[p]) by {
        assert(w.contains(w[p]));
        assert(w.to_multiset().contains(w[p]));
        assert(v.to_multiset().contains(w[p]));
    }
    assert forall|p: int| 0 <= p < v.len() implies w.contains(#[trigger] v[p]) by {
        assert(v.contains(v[p]));
        assert(v.to_multiset().contains(v[p]));
        assert(w.to_multiset().contains(v[p]));
    }
    if v.no_duplicates() {
        v.lemma_multiset_has_no_duplicates();
        w.lemma_multiset_has_no_duplicates_conv();
    }
}

proof fn lemma_candidates_permuted(
    v: Seq<Candidate>,
    w: Seq<Candidate>,
    left_folder: Seq<char>,
    l: FolderSignature,
    right: TextMap<FolderSignature>,
    n: int,
)
    requires
        are_candidates(v, left_folder, l, right, n),
        v.to_multiset() == w.to_multiset(),
    ensures
        are_candidates(w, left_folder, l, right, n),
{
    assert(v.no_duplicates()) by {
        assert forall|p: int, q: int|
            0 <= p < v.len() && 0 <= q < v.len() && p != q implies v[p] != v[q] by {
            assert(v[p].index != v[q].index);
        }
    }
    lemma_same_members(v, w);
    assert forall|p: int| 0 <= p < w.len() implies {
        &&& (#[trigger] w[p]).is_ranked()
        &&& w[p].index < n
        &&& may_match(l, right.value_seq()[w[p].index as int])
        &&& tells_of(
            w[p].item,
            left_folder,
            l,
            right.key_seq()[w[p].index as int],
            right.value_seq()[w[p].index as int],
        )
        &&& w[p].rank() == rank_of(
            l,
            right.value_seq()[w[p].index as int],
            right.key_seq()[w[p].index as int],
        )
    } by {
        assert(v.contains(w[p]));
        let a = v.index_of(w[p]);
        assert(v[a] == w[p]);
    }
    assert forall|p: int, q: int|
        0 <= p < w.len() && 0 <= q < w.len() && p != q implies (#[trigger] w[p]).index != (
    #[trigger] w[q]).index by {
        assert(v.contains(w[p]));
        assert(v.contains(w[q]));
        let a = v.index_of(w[p]);
        let b = v.index_of(w[q]);
        assert(v[a] == w[p] && v[b] == w[q]);
        assert(a != b);
        assert(v[a].index != v[b].index);
    }
    assert forall|j: int| 0 <= j < n && may_match(l, right.value_seq()[j]) implies exists|p: int|
        0 <= p < w.len() && (#[trigger] w[p]).index == j by {
        let a = choose|a: int| 0 <= a < v.len() && (#[trigger] v[a]).index == j;
        assert(w.contains(v[a]));
        let p = w.index_of(v[a]);
        assert(w[p].index == j);
    }
}

/// In order, a candidate has as many better ones as stand before it.
proof fn lemma_position_is_rank(
    w: Seq<Candidate>,
    left_folder: Seq<char>,
    l: FolderSignature,
    right: TextMap<FolderSignature>,
    p: int,
)
    requires
        right.wf(),
        are_candidates(w, left_folder, l, right, right.key_seq().len() as int),
        in_order(w),
        0 <= p < w.len(),
    ensures
        better(l, right, w[p].index as int).len() == p,
{
    let n = right.key_seq().len() as int;
    let ids = w.map_values(|c: Candidate| c.index as int);
    let first = ids.take(p);
    let set = better(l, right, w[p].index as int);
    lemma_ascending_distinct(right.key_seq());
    assert forall|k: int| set.contains(k) <==> first.to_set().contains(k) by {
        if set.contains(k) {
            let q = choose|q: int| 0 <= q < w.len() && (#[trigger] w[q]).index == k;
            assert(w[q].before(&w[p]));
            if q > p {
                assert(!w[q].before(&w[p]));
            } else if q == p {
                Candidate::lemma_asymmetric(&w[p], &w[p]);
            }
            assert(first[q] == k);
        }
        if first.to_set().contains(k) {
            let q = first.index_of(k);
            assert(w[q].index == k);
            assert(!w[p].before(&w[q]));
            assert(w[p].index != w[q].index);
            assert(w[p].is_ranked() && w[q].is_ranked());
            lemma_above_total(w[p].rank(), w[q].rank());
        }
    }
    assert(set =~= first.to_set());
    assert(first.no_duplicates()) by {
        assert forall|a: int, b: int|
            0 <= a < first.len() && 0 <= b < first.len() && a != b implies first[a] != first[b] by {
            assert(w[a].index != w[b].index);
        }
    }
    first.unique_seq_to_set();
}

/// Whether a match tells of the folders of two indices.
pub open spec fn tells_pair(
    m: DossierMatch,
    left: TextMap<FolderSignature>,
    i: int,
    right: TextMap<FolderSignature>,
    j: int,
) -> bool {
    tells_of(m, left.key_seq()[i], left.value_seq()[i], right.key_seq()[j], right.value_seq()[j])
}

/// Whether the folder of the right index is one of the best matches of the
/// folder of the left index.
pub open spec fn chosen_pair(
    left: TextMap<FolderSignature>,
    i: int,
    right: TextMap<FolderSignature>,
    j: int,
    top_k: nat,
) -> bool {
    0 <= i < left.key_seq().len() && chosen(left.value_seq()[i], right, j, top_k)
}

/// Whether a match tells of a chosen pair of folders.
pub open spec fn is_best_match(
    m: DossierMatch,
    left: TextMap<FolderSignature>,
    right: TextMap<FolderSignature>,
    top_k: nat,
) -> bool {
    exists|i: int, j: int|
        #[trigger] chosen_pair(left, i, right, j, top_k) && tells_pair(m, left, i, right, j)
}

/// Whether matches are the best ones of each left folder: in order, one for
/// each chosen pair of folders, and no other.
pub open spec fn are_best_matches(
    r: Seq<DossierMatch>,
    left: TextMap<FolderSignature>,
    right: TextMap<FolderSignature>,
    top_k: nat,
) -> bool {
    &&& in_order(r)
    &&& forall|p: int| 0 <= p < r.len() ==> is_best_match(#[trigger] r[p], left, right, top_k)
    &&& forall|i: int, j: int|
        #[trigger] chosen_pair(left, i, right, j, top_k) ==> exists|p: int|
            0 <= p < r.len() && tells_pair(#[trigger] r[p], left, i, right, j)
    &&& of_distinct_folders(r)
}

/// Whether matches tell of the given pairs, which are the chosen ones of the
/// first `n` left folders.
spec fn tell_pairs(
    out: Seq<DossierMatch>,
    pairs: Seq<(int, int)>,
    left: TextMap<FolderSignature>,
    right: TextMap<FolderSignature>,
    n: int,
    top_k: nat,
) -> bool {
    &&& out.len() == pairs.len()
    &&& forall|p: int|
        0 <= p < pairs.len() ==> (#[trigger] pairs[p]).0 < n && chosen_pair(
            left,
            pairs[p].0,
            right,
            pairs[p].1,
            top_k,
        ) && tells_pair(out[p], left, pairs[p].0, right, pairs[p].1)
    &&& pairs.no_duplicates()
    &&& forall|i: int, j: int|
        i < n && #[trigger] chosen_pair(left, i, right, j, top_k) ==> pairs.contains((i, j))
}

/// Moves the matches of ranked candidates of the left folder `i` to the matches
/// of the left folders before it.
fn take_best(
    ranked: Vec<Candidate>,
    out: &mut Vec<DossierMatch>,
    pairs: &mut Ghost<Seq<(int, int)>>,
    left: &TextMap<FolderSignature>,
    right: &TextMap<FolderSignature>,
    i: usize,
    top_k: usize,
)
    requires
        left.wf(),
        right.wf(),
        i < left.key_seq().len(),
        in_order(ranked@),
        are_candidates(
            ranked@,
            left.key_seq()[i as int],
            left.value_seq()[i as int],
            *right,
            right.key_seq().len() as int,
        ),
        tell_pairs(old(out)@, old(pairs)@, *left, *right, i as int, top_k as nat),
    ensures
        tell_pairs(final(out)@, final(pairs)@, *left, *right, i + 1, top_k as nat),
{
    let mut ranked = ranked;
    let ghost w = ranked@;
    let ghost l = left.value_seq()[i as int];
    let ghost best = if top_k <= w.len() {
        top_k as int
    } else {
        w.len() as int
    };
    ranked.truncate(top_k);
    assert(ranked@ =~= w.take(best));
    proof {
        assert forall|p: int| 0 <= p < w.len() implies #[trigger] chosen_pair(
            *left,
            i as int,
            *right,
            w[p].index as int,
            top_k as nat,
        ) == (p < top_k) by {
            lemma_position_is_rank(w, left.key_seq()[i as int], l, *right, p);
        }
    }
    while ranked.len() > 0
        invariant
            i < left.key_seq().len(),
            l == left.value_seq()[i as int],
            ranked@.len() <= best <= w.len(),
            best <= top_k,
            ranked@ == w.take(ranked@.len() as int),
            are_candidates(
                w,
                left.key_seq()[i as int],
                l,
                *right,
                right.key_seq().len() as int,
            ),
            forall|p: int|
                0 <= p < w.len() ==> #[trigger] chosen_pair(
                    *left,
                    i as int,
                    *right,
                    w[p].index as int,
                    top_k as nat,
                ) == (p < top_k),
            out@.len() == pairs@.len(),
            forall|p: int|
                0 <= p < pairs@.len() ==> (#[trigger] pairs@[p]).0 <= i && chosen_pair(
                    *left,
                    pairs@[p].0,
                    *right,
                    pairs@[p].1,
                    top_k as nat,
                ) && tells_pair(out@[p], *left, pairs@[p].0, *right, pairs@[p].1),
            pairs@.no_duplicates(),
            forall|a: int, b: int|
                a < i && #[trigger] chosen_pair(*left, a, *right, b, top_k as nat)
                    ==> pairs@.contains((a, b)),
            forall|p: int|
                ranked@.len() <= p < best ==> pairs@.contains(
                    (i as int, (#[trigger] w[p]).index as int),
                ),
            forall|p: int|
                0 <= p < ranked@.len() ==> !pairs@.contains(
                    (i as int, (#[trigger] w[p]).index as int),
                ),
        decreases ranked@.len(),
    {
        let ghost m = ranked@.len() - 1;
        let ghost old_pairs = pairs@;
        let ghost old_out = out@;
        match ranked.pop() {
            Some(c) => {
                let ghost pair = (i as int, c.index as int);
                assert(c == w[m]);
                assert(w.take(m + 1).drop_last() =~= w.take(m));
                out.push(c.item);
                proof {
                    pairs@ = pairs@.push(pair);
                    assert(!old_pairs.contains(pair));
                    assert(pairs@.no_duplicates());
                    assert(chosen_pair(*left, i as int, *right, w[m].index as int, top_k as nat));
                    assert(pairs@[old_pairs.len() as int] == pair);
                    assert forall|a: int, b: int|
                        a < i && #[trigger] chosen_pair(
                            *left,
                            a,
                            *right,
                            b,
                            top_k as nat,
                        ) implies pairs@.contains((a, b)) by {
                        let k = old_pairs.index_of((a, b));
                        assert(pairs@[k] == (a, b));
                    }
                    assert forall|p: int| m <= p < best implies pairs@.contains(
                        (i as int, (#[trigger] w[p]).index as int),
                    ) by {
                        if p > m {
                            let k = old_pairs.index_of((i as int, w[p].index as int));
                            assert(pairs@[k] == (i as int, w[p].index as int));
                        }
                    }
                    assert forall|p: int| 0 <= p < m implies !pairs@.contains(
                        (i as int, (#[trigger] w[p]).index as int),
                    ) by {
                        let other = (i as int, w[p].index as int);
                        assert(w[p].index != w[m].index);
                        if pairs@.contains(other) {
                            let k = pairs@.index_of(other);
                            assert(old_pairs[k] == other);
                        }
                    }
                }
            },
            None => {},
        }
    }
    proof {
        assert forall|a: int, b: int|
            a < i + 1 && #[trigger] chosen_pair(
                *left,
                a,
                *right,
                b,
                top_k as nat,
            ) implies pairs@.contains((a, b)) by {
            if a == i {
                let p = choose|p: int| 0 <= p < w.len() && (#[trigger] w[p]).index == b;
                assert(chosen_pair(*left, i as int, *right, w[p].index as int, top_k as nat));
                assert(p < best);
            }
        }
    }
}

/// Whether no two matches are of the same two folders.
pub open spec fn of_distinct_folders(r: Seq<DossierMatch>) -> bool {
    forall|p: int, q: int|
        0 <= p < q < r.len() ==> (#[trigger] r[p]).left_folder@ != (
        #[trigger] r[q]).left_folder@ || r[p].right_folder@ != r[q].right_folder@
}

proof fn lemma_pairs_distinct(
    out: Seq<DossierMatch>,
    pairs: Seq<(int, int)>,
    left: TextMap<FolderSignature>,
    right: TextMap<FolderSignature>,
    top_k: nat,
)
    requires
        left.wf(),
        right.wf(),
        tell_pairs(out, pairs, left, right, left.key_seq().len() as int, top_k),
    ensures
        of_distinct_folders(out),
        out.no_duplicates(),
{
    let lk = left.key_seq();
    let rk = right.key_seq();
    lemma_ascending_distinct(lk);
    lemma_ascending_distinct(rk);
    assert forall|p: int, q: int| 0 <= p < q < out.len() implies (
    #[trigger] out[p]).left_folder@ != (#[trigger] out[q]).left_folder@ || out[p].right_folder@
        != out[q].right_folder@ by {
        let (a, b) = pairs[p];
        let (c, d) = pairs[q];
        assert(pairs[p] != pairs[q]);
        assert(tells_pair(out[p], left, a, right, b));
        assert(tells_pair(out[q], left, c, right, d));
        assert(out[p].left_folder@ == lk[a] && out[p].right_folder@ == rk[b]);
        assert(out[q].left_folder@ == lk[c] && out[q].right_folder@ == rk[d]);
        assert(chosen_pair(left, a, right, b, top_k));
        assert(chosen_pair(left, c, right, d, top_k));
    }
    assert forall|p: int, q: int|
        0 <= p < out.len() && 0 <= q < out.len() && p != q implies out[p] != out[q] by {
        if p < q {
            assert(out[p].left_folder@ != out[q].left_folder@ || out[p].right_folder@
                != out[q].right_folder@);
        } else {
            assert(out[q].left_folder@ != out[p].left_folder@ || out[q].right_folder@
                != out[p].right_folder@);
        }
    }
}

proof fn lemma_distinct_permuted(out: Seq<DossierMatch>, r: Seq<DossierMatch>)
    requires
        of_distinct_folders(out),
        out.no_duplicates(),
        r.to_multiset() == out.to_multiset(),
    ensures
        of_distinct_folders(r),
{
    lemma_same_members(out, r);
    assert forall|p: int, q: int| 0 <= p < q < r.len() implies (#[trigger] r[p]).left_folder@ != (
    #[trigger] r[q]).left_folder@ || r[p].right_folder@ != r[q].right_folder@ by {
        assert(out.contains(r[p]));
        assert(out.contains(r[q]));
        let a = out.index_of(r[p]);
        let b = out.index_of(r[q]);
        assert(out[a] == r[p] && out[b] == r[q]);
        assert(a != b);
        if a < b {
            assert(out[a].left_folder@ != out[b].left_folder@ || out[a].right_folder@
                != out[b].right_folder@);
        } else {
            assert(out[b].left_folder@ != out[a].left_folder@ || out[b].right_folder@
                != out[a].right_folder@);
        }
    }
}

proof fn lemma_pairs_are_matches(
    out: Seq<DossierMatch>,
    pairs: Seq<(int, int)>,
    r: Seq<DossierMatch>,
    left: TextMap<FolderSignature>,
    right: TextMap<FolderSignature>,
    top_k: nat,
)
    requires
        left.wf(),
        right.wf(),
        tell_pairs(out, pairs, left, right, left.key_seq().len() as int, top_k),
        in_order(r),
        r.to_multiset() == out.to_multiset(),
    ensures
        are_best_matches(r, left, right, top_k),
{
    lemma_pairs_distinct(out, pairs, left, right, top_k);
    lemma_distinct_permuted(out, r);
    lemma_same_members(out, r);
    assert forall|p: int| 0 <= p < r.len() implies is_best_match(
        #[trigger] r[p],
        left,
        right,
        top_k,
    ) by {
        assert(out.contains(r[p]));
        let a = out.index_of(r[p]);
        assert(chosen_pair(left, pairs[a].0, right, pairs[a].1, top_k));
    }
    assert forall|i: int, j: int| #[trigger] chosen_pair(left, i, right, j, top_k) implies exists|
        p: int,
    | 0 <= p < r.len() && tells_pair(#[trigger] r[p], left, i, right, j) by {
        assert(pairs.contains((i, j)));
        let a = pairs.index_of((i, j));
        assert(pairs[a] == (i, j));
        assert(tells_pair(out[a], left, i, right, j));
        assert(r.contains(out[a]));
        let p = r.index_of(out[a]);
        assert(tells_pair(r[p], left, i, right, j));
    }
}

/// The `top_k` best matches of each left folder among the right folders.
pub fn build_dossier_matches(
    left_signatures: &TextMap<FolderSignature>,
    right_signatures: &TextMap<FolderSignature>,
    top_k: usize,
) -> (r: Vec<DossierMatch>)
    requires
        sound(*left_signatures),
        sound(*right_signatures),
    ensures
        are_best_matches(r@, *left_signatures, *right_signatures, top_k as nat),
{
    let left = left_signatures;
    let right = right_signatures;
    let mut out: Vec<DossierMatch> = Vec::new();
    let mut pairs: Ghost<Seq<(int, int)>> = Ghost(Seq::empty());
    let mut i: usize = 0;
    while i < left.len()
        invariant
            sound(*left),
            sound(*right),
            i <= left.key_seq().len(),
            tell_pairs(out@, pairs@, *left, *right, i as int, top_k as nat),
        decreases left.key_seq().len() - i,
    {
        let found = find_candidates(left.key_at(i).as_str(), left.value_at(i), right);
        let ghost unsorted = found@;
        assert(all_ranked(found@));
        let ranked = sort(found);
        proof {
            lemma_candidates_permuted(
                unsorted,
                ranked@,
                left.key_seq()[i as int],
                left.value_seq()[i as int],
                *right,
                right.key_seq().len() as int,
            );
        }
        take_best(ranked, &mut out, &mut pairs, left, right, i, top_k);
        i = i + 1;
    }
    let ghost unsorted = out@;
    assert(all_ranked(out@)) by {
        assert forall|p: int| 0 <= p < out@.len() implies (#[trigger] out@[p]).is_ranked() by {
            assert(tells_pair(out@[p], *left, pairs@[p].0, *right, pairs@[p].1));
        }
    }
    let r = sort(out);
    proof {
        lemma_pairs_are_matches(unsorted, pairs@, r@, *left, *right, top_k as nat);
    }
    r
}

} // verus!
