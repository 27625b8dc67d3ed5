//! Dossiers: how likely folders of two trees hold the same things, judged by
//! weighted tokens that their files leave.
//!
//! Weights are counted in thousandths, and ratios are kept as fractions, so
//! that sums and comparisons are exact.

use crate::archive::{
    archive_family_depth, archive_signature_of, build_virtual_archive_member_path,
    build_virtual_archive_path, dossier_archive_signature, dossier_extension_signature,
    extension_signature, family_words, virtual_member_of, virtual_path_of,
};
use crate::filter::{lemma_filter_start, lemma_filter_step};
use crate::fingerprint::{
    build_file_fingerprint_profile, lower_name, profile_of, FileFingerprintProfile, Profile,
};
use crate::number::{decimal, decimal_chars};
use crate::path::{extension, file_name, file_stem, parent, path_extension, path_parent, path_stem};
use crate::record::FileRecord;
use crate::text::{
    ascii_lower, char_texts, chars_same, extend_str, from_chars, join, joined, opt_text, pieces,
    replace_char, replaced, same, slice, split, str_to_lowercase, strip, stripped, texts,
    to_ascii_lower, to_chars, unicode_lower, CharClass,
};
use crate::textmap::{lemma_sorted_set_unique, sorted_set, TextMap};
use vstd::prelude::*;
use vstd::string::*;

verus! {

// ---------------------------------------------------------------------------
// Weighted tokens
// ---------------------------------------------------------------------------

/// What the files of a folder leave.
pub struct FolderSignature {
    pub path: String,
    pub files: usize,
    pub total_bytes: u64,
    /// The weight of all tokens, in thousandths.
    pub total_weight: u128,
    /// The weight of each token, in thousandths.
    pub tokens: TextMap<u128>,
}

/// The weight of all tokens of a list.
pub open spec fn total_weight(list: Seq<(Seq<char>, nat)>) -> nat
    decreases list.len(),
{
    if list.len() == 0 {
        0
    } else {
        total_weight(list.drop_last()) + list.last().1
    }
}

/// The weight of one token in a list.
pub open spec fn weight_of(list: Seq<(Seq<char>, nat)>, token: Seq<char>) -> nat
    decreases list.len(),
{
    if list.len() == 0 {
        0
    } else if list.last().0 == token {
        weight_of(list.drop_last(), token) + list.last().1
    } else {
        weight_of(list.drop_last(), token)
    }
}

/// Whether a list holds a token.
pub open spec fn has_token(list: Seq<(Seq<char>, nat)>, token: Seq<char>) -> bool
    decreases list.len(),
{
    list.len() > 0 && (list.last().0 == token || has_token(list.drop_last(), token))
}

/// The sum of weights.
pub open spec fn sum_of(v: Seq<u128>) -> nat
    decreases v.len(),
{
    if v.len() == 0 {
        0
    } else {
        sum_of(v.drop_last()) + v.last() as nat
    }
}

pub proof fn lemma_sum_update(v: Seq<u128>, i: int, w: u128)
    requires
        0 <= i < v.len(),
    ensures
        sum_of(v.update(i, w)) == sum_of(v) - v[i] + w,
        v[i] <= sum_of(v),
    decreases v.len(),
{
    if i == v.len() - 1 {
        assert(v.update(i, w).drop_last() =~= v.drop_last());
    } else {
        lemma_sum_update(v.drop_last(), i, w);
        assert(v.update(i, w).drop_last() =~= v.drop_last().update(i, w));
    }
}

proof fn lemma_sum_insert(v: Seq<u128>, i: int)
    requires
        0 <= i <= v.len(),
    ensures
        sum_of(v.insert(i, 0)) == sum_of(v),
    decreases v.len(),
{
    if i == v.len() {
        assert(v.insert(i, 0).drop_last() =~= v);
    } else {
        lemma_sum_insert(v.drop_last(), i);
        assert(v.insert(i, 0).drop_last() =~= v.drop_last().insert(i, 0));
        assert(v.insert(i, 0).last() == v.last());
    }
}

/// The weight of a folder, at most.
pub const MAX_FOLDER_WEIGHT: u128 = 1_267_650_600_228_229_401_496_703_205_376;

impl FolderSignature {
    /// The weight of the signature is that of its tokens.
    pub open spec fn wf(&self) -> bool {
        &&& self.tokens.wf()
        &&& self.total_weight == sum_of(self.tokens.value_seq())
        &&& self.total_weight <= MAX_FOLDER_WEIGHT
    }

    /// Whether the tokens of the signature are those of a list.
    pub open spec fn weighs(&self, list: Seq<(Seq<char>, nat)>) -> bool {
        &&& self.tokens.wf()
        &&& self.total_weight == total_weight(list)
        &&& self.total_weight == sum_of(self.tokens.value_seq())
        &&& forall|t: Seq<char>| #[trigger] self.tokens@.contains_key(t) <==> has_token(list, t)
        &&& forall|t: Seq<char>|
            #[trigger] self.tokens@.contains_key(t) ==> self.tokens@[t] == weight_of(list, t)
    }
}

/// A token with its weight.
struct WeightedToken {
    text: String,
    weight: u128,
}

spec fn weighted(v: Seq<WeightedToken>) -> Seq<(Seq<char>, nat)> {
    v.map_values(|t: WeightedToken| (t.text@, t.weight as nat))
}

// The weights of the tokens, in thousandths.

pub const NAME_WEIGHT: u128 = 1000;

pub const STEM_WEIGHT: u128 = 350;

pub const EXTENSION_WEIGHT: u128 = 200;

pub const EXTENSION_STEM_WEIGHT: u128 = 550;

pub const HASH_WEIGHT: u128 = 2500;

pub const NORMAL_NAME_WEIGHT: u128 = 850;

pub const NORMAL_FOLDER_WEIGHT: u128 = 150;

pub const BINARYITY_WEIGHT: u128 = 400;

pub const BINARY_SIGNATURE_WEIGHT: u128 = 320;

pub const BINARY_DESCRIPTOR_WEIGHT: u128 = 30;

pub const ARCHIVE_WEIGHT: u128 = 350;

pub const ARCHIVE_SIGNATURE_WEIGHT: u128 = 220;

pub const ARCHIVE_MEMBER_WEIGHT: u128 = 132;

pub const ARCHIVE_DEPTH_WEIGHT: u128 = 110;

pub const TEXT_SIGNATURE_WEIGHT: u128 = 300;

pub const LANGUAGE_WEIGHT: u128 = 280;

pub const SIZE_CLASS_WEIGHT: u128 = 180;

pub const FOLDER_WEIGHT: u128 = 100;

pub const FOLDER_PREFIX_WEIGHT: u128 = 50;

pub const FOLDER_DEPTH_WEIGHT: u128 = 20;

/// The weight of any single token, at most.
const HEAVIEST: u128 = 2500;

/// Whether no token of a list is heavier than any single token can be.
spec fn light(v: Seq<WeightedToken>) -> bool {
    forall|i: int| 0 <= i < v.len() ==> (#[trigger] v[i]).weight <= HEAVIEST
}

proof fn lemma_light_total(v: Seq<WeightedToken>)
    requires
        light(v),
    ensures
        total_weight(weighted(v)) <= HEAVIEST * v.len(),
    decreases v.len(),
{
    if v.len() > 0 {
        let init = v.drop_last();
        assert forall|i: int| 0 <= i < init.len() implies (#[trigger] init[i]).weight
            <= HEAVIEST by {
            assert(init[i] == v[i]);
        }
        lemma_light_total(init);
        assert(weighted(v).drop_last() =~= weighted(init));
        assert(v[v.len() - 1].weight <= HEAVIEST);
        assert(HEAVIEST * v.len() == HEAVIEST * (v.len() - 1) + HEAVIEST) by (nonlinear_arith)
            requires
                v.len() > 0,
        ;
    }
}

proof fn lemma_weight_within_total(list: Seq<(Seq<char>, nat)>, token: Seq<char>)
    ensures
        weight_of(list, token) <= total_weight(list),
    decreases list.len(),
{
    if list.len() > 0 {
        lemma_weight_within_total(list.drop_last(), token);
    }
}

pub proof fn lemma_total_concat(a: Seq<(Seq<char>, nat)>, b: Seq<(Seq<char>, nat)>)
    ensures
        total_weight(a + b) == total_weight(a) + total_weight(b),
    decreases b.len(),
{
    if b.len() == 0 {
        assert(a + b =~= a);
    } else {
        lemma_total_concat(a, b.drop_last());
        assert((a + b).drop_last() =~= a + b.drop_last());
        assert((a + b).last() == b.last());
    }
}

fn push_token(v: &mut Vec<WeightedToken>, text: String, weight: u128)
    requires
        light(old(v)@),
        weight <= HEAVIEST,
    ensures
        light(final(v)@),
        weighted(final(v)@) == weighted(old(v)@).push((text@, weight as nat)),
        final(v)@.len() == old(v)@.len() + 1,
{
    let ghost before = v@;
    let ghost t = text@;
    v.push(WeightedToken { text, weight });
    assert(weighted(v@) =~= weighted(before).push((t, weight as nat)));
}

/// Adds the token made of a label and a text.
fn push_labelled(v: &mut Vec<WeightedToken>, label: &str, text: &str, weight: u128)
    requires
        light(old(v)@),
        weight <= HEAVIEST,
    ensures
        light(final(v)@),
        weighted(final(v)@) == weighted(old(v)@).push((label@ + text@, weight as nat)),
        final(v)@.len() == old(v)@.len() + 1,
{
    let mut t = label.to_owned();
    t.append(text);
    push_token(v, t, weight);
}

/// Adds the token made of a label and a text, where there is a text.
fn push_optional(v: &mut Vec<WeightedToken>, label: &str, text: &Option<String>, weight: u128)
    requires
        light(old(v)@),
        weight <= HEAVIEST,
    ensures
        light(final(v)@),
        weighted(final(v)@) == weighted(old(v)@) + optional(
            label@,
            opt_text(*text),
            weight as nat,
        ),
        final(v)@.len() <= old(v)@.len() + 1,
{
    let ghost before = weighted(v@);
    match text {
        Some(t) => {
            push_labelled(v, label, t.as_str(), weight);
            assert(weighted(v@) =~= before + seq![(label@ + t@, weight as nat)]);
        },
        None => {
            assert(before + Seq::<(Seq<char>, nat)>::empty() =~= before);
        },
    }
}

/// Adds a token to a signature.
fn add_token(signature: &mut FolderSignature, token: &str, weight: u128, list: Ghost<
    Seq<(Seq<char>, nat)>,
>)
    requires
        old(signature).weighs(list@),
        total_weight(list@) + weight <= u128::MAX,
    ensures
        final(signature).weighs(list@.push((token@, weight as nat))),
        final(signature).path == old(signature).path,
        final(signature).files == old(signature).files,
        final(signature).total_bytes == old(signature).total_bytes,
{
    let ghost l = list@;
    let ghost longer = l.push((token@, weight as nat));
    proof {
        assert(longer.drop_last() =~= l);
        lemma_weight_within_total(l, token@);
        lemma_weight_absent(l, token@);
    }
    let ghost held = signature.tokens;
    let i = signature.tokens.find_or_insert(token.to_owned(), 0);
    let ghost middle = signature.tokens;
    proof {
        middle.lemma_entries();
        held.lemma_entries();
        if !held@.contains_key(token@) {
            lemma_sum_insert(held.value_seq(), i as int);
        }
        assert(middle@[token@] == middle.value_seq()[i as int]);
        lemma_sum_update(
            middle.value_seq(),
            i as int,
            (middle.value_seq()[i as int] + weight) as u128,
        );
    }
    let before: u128 = *signature.tokens.value_at(i);
    signature.tokens.set_at(i, before + weight);
    signature.total_weight = signature.total_weight + weight;
    assert(signature.weighs(longer));
}

proof fn lemma_weight_absent(list: Seq<(Seq<char>, nat)>, token: Seq<char>)
    ensures
        !has_token(list, token) ==> weight_of(list, token) == 0,
    decreases list.len(),
{
    if list.len() > 0 {
        lemma_weight_absent(list.drop_last(), token);
    }
}

/// Adds the tokens of a list to a signature.
fn add_tokens(signature: &mut FolderSignature, added: &Vec<WeightedToken>, list: Ghost<
    Seq<(Seq<char>, nat)>,
>)
    requires
        old(signature).weighs(list@),
        total_weight(list@) + total_weight(weighted(added@)) <= u128::MAX,
    ensures
        final(signature).weighs(list@ + weighted(added@)),
        final(signature).path == old(signature).path,
        final(signature).files == old(signature).files,
        final(signature).total_bytes == old(signature).total_bytes,
{
    let ghost all = weighted(added@);
    let mut i: usize = 0;
    assert(list@ + all.take(0) =~= list@);
    while i < added.len()
        invariant
            i <= added@.len(),
            all == weighted(added@),
            signature.weighs(list@ + all.take(i as int)),
            total_weight(list@) + total_weight(all) <= u128::MAX,
                signature.path == old(signature).path,
            signature.files == old(signature).files,
            signature.total_bytes == old(signature).total_bytes,
        decreases added@.len() - i,
    {
        let ghost so_far = list@ + all.take(i as int);
        proof {
            let next = all.take(i as int + 1);
            assert(next =~= all.take(i as int).push(all[i as int]));
            assert(next.drop_last() =~= all.take(i as int));
            lemma_total_concat(list@, all.take(i as int));
            lemma_total_prefix(all, i as int + 1);
            assert(list@ + next =~= so_far.push(all[i as int]));
        }
        add_token(signature, added[i].text.as_str(), added[i].weight, Ghost(so_far));
        i = i + 1;
    }
    assert(all.take(i as int) =~= all);
}

proof fn lemma_total_prefix(list: Seq<(Seq<char>, nat)>, n: int)
    requires
        0 <= n <= list.len(),
    ensures
        total_weight(list.take(n)) <= total_weight(list),
    decreases list.len(),
{
    if n < list.len() {
        lemma_total_prefix(list.drop_last(), n);
        assert(list.drop_last().take(n) =~= list.take(n));
    } else {
        assert(list.take(n) =~= list);
    }
}

// ---------------------------------------------------------------------------
// The tokens of a row
// ---------------------------------------------------------------------------

/// A token where there is a text for it.
pub open spec fn optional(
    label: Seq<char>,
    text: Option<Seq<char>>,
    weight: nat,
) -> Seq<(Seq<char>, nat)> {
    match text {
        Some(t) => seq![(label + t, weight)],
        None => Seq::empty(),
    }
}

/// The stem of a file's name in lower case.
pub open spec fn lower_stem(rel_path: Seq<char>) -> Seq<char> {
    match path_stem(rel_path) {
        Some(stem) => unicode_lower(stem),
        None => lower_name(rel_path),
    }
}

/// The extension of a file's name in lower case, empty where it has none.
pub open spec fn lower_ext(rel_path: Seq<char>) -> Seq<char> {
    match path_extension(rel_path) {
        Some(ext) => unicode_lower(ext),
        None => Seq::empty(),
    }
}

/// The extension of an archive, or the plain extension.
pub open spec fn ext_signature(rel_path: Seq<char>) -> Seq<char> {
    extension_signature(lower_name(rel_path), lower_ext(rel_path))
}

/// The tokens of a file's extension and of its stem with it.
pub open spec fn extension_tokens(stem: Seq<char>, ext: Seq<char>, with_stem: Seq<char>) -> Seq<
    (Seq<char>, nat),
> {
    seq![
        ("E:"@ + ext, EXTENSION_WEIGHT as nat),
        ("ES:"@ + stem + ":"@ + with_stem, EXTENSION_STEM_WEIGHT as nat),
    ]
}

/// The tokens of a file's name.
pub open spec fn name_tokens(rel_path: Seq<char>, p: Profile) -> Seq<(Seq<char>, nat)> {
    let stem = lower_stem(rel_path);
    let ext = lower_ext(rel_path);
    let sig = ext_signature(rel_path);
    seq![
        ("N:"@ + lower_name(rel_path), NAME_WEIGHT as nat),
        ("NF:"@ + p.normalized_name, NORMAL_NAME_WEIGHT as nat),
    ] + (
    if p.normalized_folder.len() > 0 {
        seq![("NFP:"@ + p.normalized_folder, NORMAL_FOLDER_WEIGHT as nat)]
    } else {
        Seq::empty()
    }) + seq![("S:"@ + stem, STEM_WEIGHT as nat)] + (if ext.len() > 0 {
        extension_tokens(stem, ext, sig)
    } else {
        Seq::empty()
    }) + (if sig.len() > 0 && sig[0] == '.' {
        extension_tokens(stem, sig.skip(1), sig.skip(1))
    } else {
        Seq::empty()
    })
}

/// The tokens of what a file holds.
pub open spec fn kind_tokens(p: Profile) -> Seq<(Seq<char>, nat)> {
    (if p.is_binary {
        seq![("BIN:binary"@, BINARYITY_WEIGHT as nat)] + optional(
            "BINSIG:"@,
            p.binary_signature,
            BINARY_SIGNATURE_WEIGHT as nat,
        ) + optional("BINDESC:"@, p.binary_descriptor, BINARY_DESCRIPTOR_WEIGHT as nat)
    } else {
        seq![("TEXT:text"@, BINARYITY_WEIGHT as nat)] + optional(
            "TEXTSIG:"@,
            p.text_signature,
            TEXT_SIGNATURE_WEIGHT as nat,
        )
    }) + (if p.language != "unknown"@ && p.language.len() > 0 {
        seq![("LANG:"@ + p.language, LANGUAGE_WEIGHT as nat)]
    } else {
        Seq::empty()
    }) + (if p.size_class.len() > 0 {
        seq![
            ("SIZE:"@ + p.size_class, SIZE_CLASS_WEIGHT as nat),
            ("SZB:"@ + p.size_class, SIZE_CLASS_WEIGHT as nat),
        ]
    } else {
        Seq::empty()
    })
}

/// The tokens of an archive.
pub open spec fn archive_tokens(rel_path: Seq<char>, p: Profile) -> Seq<(Seq<char>, nat)> {
    match p.archive_family {
        Some(family) => seq![
            ("ARCH:"@ + family, ARCHIVE_WEIGHT as nat),
            ("ARCHFAM:"@ + family, ARCHIVE_WEIGHT as nat),
        ]
            + optional("ARCHSIG:"@, archive_signature_of(family), ARCHIVE_SIGNATURE_WEIGHT as nat)
            + optional("ARCHPAY:"@, p.archive_signature, ARCHIVE_SIGNATURE_WEIGHT as nat) + seq![
            ("ARCHVIRT:"@ + virtual_path_of(rel_path), ARCHIVE_SIGNATURE_WEIGHT as nat),
            ("ARCHMEM:"@ + virtual_member_of(rel_path), ARCHIVE_MEMBER_WEIGHT as nat),
            ("ARCHDEPTH:"@ + decimal(family_words(family).len()), ARCHIVE_DEPTH_WEIGHT as nat),
        ],
        None => Seq::empty(),
    }
}

/// The tokens of a row.
pub open spec fn row_tokens(row: FileRecord, p: Profile) -> Seq<(Seq<char>, nat)> {
    name_tokens(row.rel_path@, p) + kind_tokens(p) + archive_tokens(row.rel_path@, p) + optional(
        "H:"@,
        opt_text(row.fast_hash),
        HASH_WEIGHT as nat,
    )
}

/// Adds the tokens of an extension.
fn push_extension(v: &mut Vec<WeightedToken>, stem: &str, ext: &str, with_stem: &str)
    requires
        light(old(v)@),
    ensures
        light(final(v)@),
        weighted(final(v)@) == weighted(old(v)@) + extension_tokens(stem@, ext@, with_stem@),
        final(v)@.len() == old(v)@.len() + 2,
{
    let ghost before = weighted(v@);
    push_labelled(v, "E:", ext, EXTENSION_WEIGHT);
    let mut t = "ES:".to_owned();
    t.append(stem);
    t.append(":");
    t.append(with_stem);
    push_token(v, t, EXTENSION_STEM_WEIGHT);
    assert(weighted(v@) =~= before + extension_tokens(stem@, ext@, with_stem@));
}

fn push_name_tokens(v: &mut Vec<WeightedToken>, rel_path: &str, p: &FileFingerprintProfile)
    requires
        light(old(v)@),
    ensures
        light(final(v)@),
        weighted(final(v)@) == weighted(old(v)@) + name_tokens(rel_path@, p@),
        final(v)@.len() <= old(v)@.len() + 8,
{
    let name = match file_name(rel_path) {
        Some(name) => from_chars(&name),
        None => {
            let none = String::new();
            assert(none@ =~= Seq::empty());
            none
        },
    };
    let name = str_to_lowercase(name.as_str());
    let stem = match file_stem(rel_path) {
        Some(stem) => {
            let text = from_chars(&stem);
            str_to_lowercase(text.as_str())
        },
        None => name.clone(),
    };
    let ext = match extension(rel_path) {
        Some(ext) => {
            let text = from_chars(&ext);
            str_to_lowercase(text.as_str())
        },
        None => {
            let none = String::new();
            assert(none@ =~= Seq::empty());
            none
        },
    };
    let sig = dossier_extension_signature(name.as_str(), ext.as_str());
    let ghost w0 = weighted(v@);
    let ghost part1 = seq![
        ("N:"@ + name@, NAME_WEIGHT as nat),
        ("NF:"@ + p@.normalized_name, NORMAL_NAME_WEIGHT as nat),
    ];
    push_labelled(v, "N:", name.as_str(), NAME_WEIGHT);
    push_labelled(v, "NF:", p.normalized_name.as_str(), NORMAL_NAME_WEIGHT);
    assert(weighted(v@) =~= w0 + part1);
    let ghost part2: Seq<(Seq<char>, nat)> = if p@.normalized_folder.len() > 0 {
        seq![("NFP:"@ + p@.normalized_folder, NORMAL_FOLDER_WEIGHT as nat)]
    } else {
        Seq::empty()
    };
    if !p.normalized_folder.as_str().is_empty() {
        push_labelled(v, "NFP:", p.normalized_folder.as_str(), NORMAL_FOLDER_WEIGHT);
    }
    assert(weighted(v@) =~= w0 + (part1 + part2));
    let ghost part3 = seq![("S:"@ + stem@, STEM_WEIGHT as nat)];
    push_labelled(v, "S:", stem.as_str(), STEM_WEIGHT);
    assert(weighted(v@) =~= w0 + (part1 + part2 + part3));
    let ghost part4 = if ext@.len() > 0 {
        extension_tokens(stem@, ext@, sig@)
    } else {
        Seq::empty()
    };
    if !ext.as_str().is_empty() {
        push_extension(v, stem.as_str(), ext.as_str(), sig.as_str());
    }
    assert(weighted(v@) =~= w0 + (part1 + part2 + part3 + part4));
    let sig_chars = to_chars(sig.as_str());
    if sig_chars.len() > 0 && sig_chars[0] == '.' {
        let plain = slice(&sig_chars, 1, sig_chars.len());
        assert(plain@ =~= sig@.skip(1));
        let plain = from_chars(&plain);
        push_extension(v, stem.as_str(), plain.as_str(), plain.as_str());
        assert(weighted(v@) =~= w0 + (part1 + part2 + part3 + part4 + extension_tokens(
            stem@,
            plain@,
            plain@,
        )));
    } else {
        assert(w0 + (part1 + part2 + part3 + part4) =~= w0 + (part1 + part2 + part3 + part4
            + Seq::<(Seq<char>, nat)>::empty()));
    }
}

fn push_kind_tokens(v: &mut Vec<WeightedToken>, p: &FileFingerprintProfile)
    requires
        light(old(v)@),
    ensures
        light(final(v)@),
        weighted(final(v)@) == weighted(old(v)@) + kind_tokens(p@),
        final(v)@.len() <= old(v)@.len() + 6,
{
    let ghost w0 = weighted(v@);
    let ghost part1: Seq<(Seq<char>, nat)> = if p@.is_binary {
        seq![("BIN:binary"@, BINARYITY_WEIGHT as nat)] + optional(
            "BINSIG:"@,
            p@.binary_signature,
            BINARY_SIGNATURE_WEIGHT as nat,
        ) + optional("BINDESC:"@, p@.binary_descriptor, BINARY_DESCRIPTOR_WEIGHT as nat)
    } else {
        seq![("TEXT:text"@, BINARYITY_WEIGHT as nat)] + optional(
            "TEXTSIG:"@,
            p@.text_signature,
            TEXT_SIGNATURE_WEIGHT as nat,
        )
    };
    if p.is_binary {
        push_token(v, "BIN:binary".to_owned(), BINARYITY_WEIGHT);
        push_optional(v, "BINSIG:", &p.binary_signature, BINARY_SIGNATURE_WEIGHT);
        push_optional(v, "BINDESC:", &p.binary_descriptor, BINARY_DESCRIPTOR_WEIGHT);
    } else {
        push_token(v, "TEXT:text".to_owned(), BINARYITY_WEIGHT);
        push_optional(v, "TEXTSIG:", &p.text_signature, TEXT_SIGNATURE_WEIGHT);
    }
    assert(weighted(v@) =~= w0 + part1);
    let ghost part2: Seq<(Seq<char>, nat)> = if p@.language != "unknown"@ && p@.language.len() > 0 {
        seq![("LANG:"@ + p@.language, LANGUAGE_WEIGHT as nat)]
    } else {
        Seq::empty()
    };
    if !same(p.language.as_str(), "unknown") && !p.language.as_str().is_empty() {
        push_labelled(v, "LANG:", p.language.as_str(), LANGUAGE_WEIGHT);
    }
    assert(weighted(v@) =~= w0 + (part1 + part2));
    let ghost part3: Seq<(Seq<char>, nat)> = if p@.size_class.len() > 0 {
        seq![
            ("SIZE:"@ + p@.size_class, SIZE_CLASS_WEIGHT as nat),
            ("SZB:"@ + p@.size_class, SIZE_CLASS_WEIGHT as nat),
        ]
    } else {
        Seq::empty()
    };
    if !p.size_class.as_str().is_empty() {
        push_labelled(v, "SIZE:", p.size_class.as_str(), SIZE_CLASS_WEIGHT);
        push_labelled(v, "SZB:", p.size_class.as_str(), SIZE_CLASS_WEIGHT);
    }
    assert(weighted(v@) =~= w0 + (part1 + part2 + part3));
}

fn push_archive_tokens(v: &mut Vec<WeightedToken>, rel_path: &str, p: &FileFingerprintProfile)
    requires
        light(old(v)@),
    ensures
        light(final(v)@),
        weighted(final(v)@) == weighted(old(v)@) + archive_tokens(rel_path@, p@),
        final(v)@.len() <= old(v)@.len() + 7,
{
    let ghost w0 = weighted(v@);
    match &p.archive_family {
        Some(family) => {
            let ghost part1 = seq![
                ("ARCH:"@ + family@, ARCHIVE_WEIGHT as nat),
                ("ARCHFAM:"@ + family@, ARCHIVE_WEIGHT as nat),
            ];
            push_labelled(v, "ARCH:", family.as_str(), ARCHIVE_WEIGHT);
            push_labelled(v, "ARCHFAM:", family.as_str(), ARCHIVE_WEIGHT);
            assert(weighted(v@) =~= w0 + part1);
            let root = dossier_archive_signature(family.as_str());
            let ghost part2 = optional(
                "ARCHSIG:"@,
                archive_signature_of(family@),
                ARCHIVE_SIGNATURE_WEIGHT as nat,
            );
            push_optional(v, "ARCHSIG:", &root, ARCHIVE_SIGNATURE_WEIGHT);
            assert(weighted(v@) =~= w0 + (part1 + part2));
            let ghost part3 = optional(
                "ARCHPAY:"@,
                p@.archive_signature,
                ARCHIVE_SIGNATURE_WEIGHT as nat,
            );
            push_optional(v, "ARCHPAY:", &p.archive_signature, ARCHIVE_SIGNATURE_WEIGHT);
            assert(weighted(v@) =~= w0 + (part1 + part2 + part3));
            let virtual_path = build_virtual_archive_path(rel_path);
            push_labelled(v, "ARCHVIRT:", virtual_path.as_str(), ARCHIVE_SIGNATURE_WEIGHT);
            let member = build_virtual_archive_member_path(rel_path);
            push_labelled(v, "ARCHMEM:", member.as_str(), ARCHIVE_MEMBER_WEIGHT);
            let depth = decimal_chars(archive_family_depth(family.as_str()) as u128);
            let depth = from_chars(&depth);
            push_labelled(v, "ARCHDEPTH:", depth.as_str(), ARCHIVE_DEPTH_WEIGHT);
            assert(weighted(v@) =~= w0 + archive_tokens(rel_path@, p@));
        },
        None => {
            assert(w0 + Seq::<(Seq<char>, nat)>::empty() =~= w0);
        },
    }
}

/// The tokens of a row, at most.
const ROW_TOKENS: usize = 22;

fn tokens_of_row(row: &FileRecord, p: &FileFingerprintProfile) -> (r: Vec<WeightedToken>)
    ensures
        light(r@),
        weighted(r@) == row_tokens(*row, p@),
        r@.len() <= ROW_TOKENS,
{
    let mut v: Vec<WeightedToken> = Vec::new();
    assert(weighted(v@) =~= Seq::empty());
    push_name_tokens(&mut v, row.rel_path.as_str(), p);
    push_kind_tokens(&mut v, p);
    push_archive_tokens(&mut v, row.rel_path.as_str(), p);
    push_optional(&mut v, "H:", &row.fast_hash, HASH_WEIGHT);
    assert(weighted(v@) =~= row_tokens(*row, p@));
    v
}

// ---------------------------------------------------------------------------
// Folders
// ---------------------------------------------------------------------------

/// The folder of a path.
pub open spec fn folder_of(rel_path: Seq<char>) -> Seq<char> {
    match path_parent(rel_path) {
        Some(parts) => joined(parts, seq!['/']),
        None => "."@,
    }
}

pub fn folder_path_from_row(rel_path: &str) -> (r: String)
    ensures
        r@ == folder_of(rel_path@),
{
    match parent(rel_path) {
        Some(parts) => {
            let text = join(&parts, "/");
            proof {
                reveal_strlit("/");
                assert("/"@ =~= seq!['/']);
            }
            from_chars(&text)
        },
        None => ".".to_owned(),
    }
}

/// Whether a segment names a folder.
pub open spec fn is_folder_name(seg: Seq<char>) -> bool {
    seg.len() > 0 && seg != "."@
}

/// The names in a folder's path, in lower case.
pub open spec fn folder_names(folder: Seq<char>) -> Seq<Seq<char>> {
    pieces(replaced(folder, '\\', '/'), CharClass::Is('/')).map_values(
        |seg: Seq<char>| ascii_lower(stripped(seg)),
    ).filter(|seg: Seq<char>| is_folder_name(seg))
}

pub fn dossier_folder_tokens(folder: &str) -> (r: Vec<String>)
    ensures
        texts(r@) == folder_names(folder@),
{
    let chars = to_chars(folder);
    let path = replace_char(&chars, '\\', '/');
    let parts = split(&path, &CharClass::Is('/'));
    let ghost all = char_texts(parts@).map_values(|seg: Seq<char>| ascii_lower(stripped(seg)));
    let ghost keep = |seg: Seq<char>| is_folder_name(seg);
    let mut r: Vec<String> = Vec::new();
    let mut i: usize = 0;
    proof {
        lemma_filter_start(all, keep);
        assert(texts(r@) =~= Seq::empty());
    }
    while i < parts.len()
        invariant
            i <= parts@.len(),
            all == char_texts(parts@).map_values(|seg: Seq<char>| ascii_lower(stripped(seg))),
            keep == (|seg: Seq<char>| is_folder_name(seg)),
            texts(r@) == all.take(i as int).filter(keep),
        decreases parts@.len() - i,
    {
        let seg = strip(&parts[i]);
        let seg = to_ascii_lower(&seg);
        proof {
            assert(all[i as int] == seg@);
            lemma_filter_step(all, keep, i as int);
        }
        if seg.len() > 0 && !chars_same(&seg, ".") {
            let ghost before = texts(r@);
            r.push(from_chars(&seg));
            assert(texts(r@) =~= before.push(seg@));
        }
        i = i + 1;
    }
    assert(all.take(i as int) =~= all);
    r
}

/// The tokens of the first `n` names of a folder's path.
pub open spec fn name_path_tokens(names: Seq<Seq<char>>, n: int) -> Seq<(Seq<char>, nat)>
    decreases n,
{
    if n <= 0 {
        Seq::empty()
    } else {
        name_path_tokens(names, n - 1) + seq![
            ("F:"@ + names[n - 1], FOLDER_WEIGHT as nat),
            ("FD:"@ + decimal((n - 1) as nat) + ":"@ + names[n - 1], FOLDER_DEPTH_WEIGHT as nat),
            ("FP:"@ + joined(names.take(n), seq!['/']), FOLDER_PREFIX_WEIGHT as nat),
        ]
    }
}

/// The tokens of a folder's path.
pub open spec fn folder_tokens(folder: Seq<char>) -> Seq<(Seq<char>, nat)> {
    if folder.len() == 0 || folder == "."@ {
        Seq::empty()
    } else {
        name_path_tokens(folder_names(folder), folder_names(folder).len() as int)
    }
}

fn tokens_of_folder(folder: &str) -> (r: Vec<WeightedToken>)
    ensures
        light(r@),
        weighted(r@) == folder_tokens(folder@),
        r@.len() <= 3 * usize::MAX,
{
    let mut v: Vec<WeightedToken> = Vec::new();
    assert(weighted(v@) =~= Seq::empty());
    if folder.is_empty() || same(folder, ".") {
        return v;
    }
    let names = dossier_folder_tokens(folder);
    let ghost all = texts(names@);
    assert(all.len() == names@.len());
    let mut running: Vec<char> = Vec::new();
    let mut i: usize = 0;
    proof {
        reveal_strlit("/");
        assert("/"@ =~= seq!['/']);
    }
    while i < names.len()
        invariant
            i <= names@.len(),
            all == texts(names@),
            light(v@),
            weighted(v@) == name_path_tokens(all, i as int),
            v@.len() == 3 * i,
            running@ == joined(all.take(i as int), seq!['/']),
            "/"@ == seq!['/'],
        decreases names@.len() - i,
    {
        let name = names[i].as_str();
        let ghost before = weighted(v@);
        proof {
            assert(all[i as int] == name@);
            assert(all.take(i as int + 1).drop_last() =~= all.take(i as int));
            assert(all.take(i as int + 1).last() == name@);
        }
        push_labelled(&mut v, "F:", name, FOLDER_WEIGHT);
        let depth = decimal_chars(i as u128);
        let depth = from_chars(&depth);
        let mut text = "FD:".to_owned();
        text.append(depth.as_str());
        text.append(":");
        text.append(name);
        push_token(&mut v, text, FOLDER_DEPTH_WEIGHT);
        if i > 0 {
            extend_str(&mut running, "/");
        }
        extend_str(&mut running, name);
        assert(running@ =~= joined(all.take(i as int + 1), seq!['/']));
        let so_far = from_chars(&running);
        push_labelled(&mut v, "FP:", so_far.as_str(), FOLDER_PREFIX_WEIGHT);
        assert(weighted(v@) =~= name_path_tokens(all, i as int + 1));
        i = i + 1;
    }
    v
}

// ---------------------------------------------------------------------------
// Signatures of folders
// ---------------------------------------------------------------------------

/// The profile of a row: the one at hand, or the one that the row itself gives.
pub open spec fn profile_for(
    row: FileRecord,
    profiles: Map<Seq<char>, FileFingerprintProfile>,
) -> Profile {
    if profiles.contains_key(row.rel_path@) {
        profiles[row.rel_path@]@
    } else {
        profile_of(row.rel_path@, row.file_type@, row.size, opt_text(row.fast_hash))
    }
}

/// The folders of the rows.
pub open spec fn folders_of(rows: Seq<FileRecord>) -> Seq<Seq<char>> {
    rows.map_values(|row: FileRecord| folder_of(row.rel_path@))
}

/// The tokens that the first `n` rows leave in a folder.
pub open spec fn rows_tokens(
    rows: Seq<FileRecord>,
    profiles: Map<Seq<char>, FileFingerprintProfile>,
    n: int,
    folder: Seq<char>,
) -> Seq<(Seq<char>, nat)>
    decreases n,
{
    if n <= 0 {
        Seq::empty()
    } else if folder_of(rows[n - 1].rel_path@) == folder {
        rows_tokens(rows, profiles, n - 1, folder) + row_tokens(
            rows[n - 1],
            profile_for(rows[n - 1], profiles),
        )
    } else {
        rows_tokens(rows, profiles, n - 1, folder)
    }
}

/// The number of the first `n` rows in a folder.
pub open spec fn folder_files(rows: Seq<FileRecord>, n: int, folder: Seq<char>) -> nat
    decreases n,
{
    if n <= 0 {
        0
    } else if folder_of(rows[n - 1].rel_path@) == folder {
        folder_files(rows, n - 1, folder) + 1
    } else {
        folder_files(rows, n - 1, folder)
    }
}

/// The bytes of the first `n` rows in a folder.
pub open spec fn folder_bytes(rows: Seq<FileRecord>, n: int, folder: Seq<char>) -> nat
    decreases n,
{
    if n <= 0 {
        0
    } else if folder_of(rows[n - 1].rel_path@) == folder {
        folder_bytes(rows, n - 1, folder) + rows[n - 1].size as nat
    } else {
        folder_bytes(rows, n - 1, folder)
    }
}

proof fn lemma_folder_counts(rows: Seq<FileRecord>, n: int, m: int, folder: Seq<char>)
    requires
        0 <= n <= m <= rows.len(),
    ensures
        folder_files(rows, n, folder) <= n,
        folder_bytes(rows, n, folder) <= folder_bytes(rows, m, folder),
    decreases m,
{
    if m > 0 {
        if n < m {
            lemma_folder_counts(rows, n, m - 1, folder);
        } else {
            lemma_folder_counts(rows, n - 1, m - 1, folder);
        }
    }
}

impl FolderSignature {
    /// Whether this is what the first `n` rows leave in a folder, with the
    /// tokens of the folder's own path where they are counted.
    pub open spec fn sums_up(
        &self,
        rows: Seq<FileRecord>,
        profiles: Map<Seq<char>, FileFingerprintProfile>,
        n: int,
        folder: Seq<char>,
        own: Seq<(Seq<char>, nat)>,
    ) -> bool {
        &&& self.path@ == folder
        &&& self.files == folder_files(rows, n, folder)
        &&& self.total_bytes == folder_bytes(rows, n, folder)
        &&& self.weighs(rows_tokens(rows, profiles, n, folder) + own)
    }

    fn new(path: String) -> (r: Self)
        ensures
            r.path@ == path@,
            r.files == 0,
            r.total_bytes == 0,
            r.weighs(Seq::empty()),
    {
        let tokens: TextMap<u128> = TextMap::new();
        assert(sum_of(tokens.value_seq()) == 0);
        FolderSignature { path, files: 0, total_bytes: 0, total_weight: 0, tokens }
    }
}

/// Whether all signatures of a map are sound.
pub open spec fn sound(m: TextMap<FolderSignature>) -> bool {
    m.wf() && forall|i: int| 0 <= i < m.value_seq().len() ==> (#[trigger] m.value_seq()[i]).wf()
}

/// Whether a map holds the signature of each folder of the rows.
pub open spec fn are_signatures(
    m: TextMap<FolderSignature>,
    rows: Seq<FileRecord>,
    profiles: Map<Seq<char>, FileFingerprintProfile>,
) -> bool {
    &&& m.wf()
    &&& m.key_seq() == sorted_set(folders_of(rows))
    &&& forall|f: Seq<char>|
        #[trigger] m@.contains_key(f) ==> m@[f].wf() && m@[f].sums_up(
            rows,
            profiles,
            rows.len() as int,
            f,
            folder_tokens(f),
        )
}

/// Whether a map holds what the first `n` rows leave in each folder.
spec fn holds_rows(
    m: TextMap<FolderSignature>,
    rows: Seq<FileRecord>,
    profiles: Map<Seq<char>, FileFingerprintProfile>,
    n: int,
) -> bool {
    &&& m.wf()
    &&& forall|f: Seq<char>|
        #[trigger] m@.contains_key(f) <==> folders_of(rows).take(n).contains(f)
    &&& forall|f: Seq<char>|
        #[trigger] m@.contains_key(f) ==> m@[f].sums_up(rows, profiles, n, f, Seq::empty())
            && total_weight(rows_tokens(rows, profiles, n, f)) <= 55_000 * n
}

proof fn lemma_nothing_left(
    rows: Seq<FileRecord>,
    profiles: Map<Seq<char>, FileFingerprintProfile>,
    n: int,
    folder: Seq<char>,
)
    requires
        0 <= n <= rows.len(),
        !folders_of(rows).take(n).contains(folder),
    ensures
        rows_tokens(rows, profiles, n, folder) == Seq::<(Seq<char>, nat)>::empty(),
        folder_files(rows, n, folder) == 0,
        folder_bytes(rows, n, folder) == 0,
    decreases n,
{
    if n > 0 {
        let all = folders_of(rows);
        assert(all.take(n)[n - 1] == folder_of(rows[n - 1].rel_path@));
        assert(!all.take(n - 1).contains(folder)) by {
            if all.take(n - 1).contains(folder) {
                let k = all.take(n - 1).index_of(folder);
                assert(all.take(n)[k] == folder);
            }
        }
        lemma_nothing_left(rows, profiles, n - 1, folder);
    }
}

/// Adds what a row leaves to the signature of its folder.
fn add_row(
    folders: &mut TextMap<FolderSignature>,
    rows: &Vec<FileRecord>,
    n: usize,
    profiles: &TextMap<FileFingerprintProfile>,
)
    requires
        profiles.wf(),
        n < rows.len(),
        holds_rows(*old(folders), rows@, profiles@, n as int),
        forall|f: Seq<char>| #[trigger] folder_bytes(rows@, rows@.len() as int, f) <= u64::MAX,
    ensures
        holds_rows(*final(folders), rows@, profiles@, n + 1),
{
    let row = &rows[n];
    let folder = folder_path_from_row(row.rel_path.as_str());
    let ghost f0 = folder@;
    let added = match profiles.get(row.rel_path.as_str()) {
        Some(p) => tokens_of_row(row, p),
        None => {
            let hash = match &row.fast_hash {
                Some(h) => Some(h.as_str()),
                None => None,
            };
            let p = build_file_fingerprint_profile(
                row.rel_path.as_str(),
                row.file_type.as_str(),
                row.size,
                hash,
            );
            tokens_of_row(row, &p)
        },
    };
    let ghost tokens = weighted(added@);
    let ghost before = *folders;
    let fresh = FolderSignature::new(folder.clone());
    let i = folders.find_or_insert(folder, fresh);
    let ghost middle = *folders;
    let ghost list = rows_tokens(rows@, profiles@, n as int, f0);
    proof {
        assert(tokens == row_tokens(*row, profile_for(*row, profiles@)));
        lemma_light_total(added@);
        assert(HEAVIEST * added@.len() <= 55_000) by (nonlinear_arith)
            requires
                added@.len() <= 22,
                HEAVIEST == 2500,
        ;
        lemma_folder_counts(rows@, n as int, rows@.len() as int, f0);
        lemma_folder_counts(rows@, n + 1, rows@.len() as int, f0);
        middle.lemma_entries();
        if !before@.contains_key(f0) {
            lemma_nothing_left(rows@, profiles@, n as int, f0);
        }
        assert(middle@.contains_key(f0));
        assert(list + Seq::<(Seq<char>, nat)>::empty() =~= list);
        assert(middle.value_seq()[i as int].weighs(list));
        assert(total_weight(list) <= 55_000 * n);
    }
    let signature = folders.value_mut(i);
    signature.files = signature.files + 1;
    signature.total_bytes = signature.total_bytes + row.size;
    add_tokens(signature, &added, Ghost(list));
    proof {
        let after = *folders;
        TextMap::lemma_updated(middle, after, i as int);
        let all = folders_of(rows@);
        assert(all.take(n + 1) =~= all.take(n as int).push(f0));
        assert forall|f: Seq<char>| #[trigger] after@.contains_key(f) <==> all.take(
            n + 1,
        ).contains(f) by {
            if all.take(n as int).contains(f) {
                let k = all.take(n as int).index_of(f);
                assert(all.take(n + 1)[k] == f);
            }
            if all.take(n + 1).contains(f) && f != f0 {
                let k = all.take(n + 1).index_of(f);
                assert(all.take(n as int)[k] == f);
            }
            assert(all.take(n + 1)[n as int] == f0);
        }
        lemma_total_concat(list, tokens);
        assert forall|f: Seq<char>| #[trigger] after@.contains_key(f) implies after@[f].sums_up(
            rows@,
            profiles@,
            n + 1,
            f,
            Seq::empty(),
        ) && total_weight(rows_tokens(rows@, profiles@, n + 1, f)) <= 55_000 * (n + 1) by {
            if f == f0 {
                assert(rows_tokens(rows@, profiles@, n + 1, f) == list + tokens);
                assert(list + tokens + Seq::<(Seq<char>, nat)>::empty() =~= list + tokens);
            } else {
                assert(before@.contains_key(f));
                assert(before@[f].sums_up(rows@, profiles@, n as int, f, Seq::empty()));
            }
        }
    }
}

/// Adds the tokens of each folder's own path.
fn add_folders(
    folders: &mut TextMap<FolderSignature>,
    rows: Ghost<Seq<FileRecord>>,
    profiles: Ghost<Map<Seq<char>, FileFingerprintProfile>>,
)
    requires
        holds_rows(*old(folders), rows@, profiles@, rows@.len() as int),
        rows@.len() <= usize::MAX,
    ensures
        are_signatures(*final(folders), rows@, profiles@),
        sound(*final(folders)),
{
    let ghost n = rows@.len() as int;
    let ghost keys = folders.key_seq();
    let ghost start = *folders;
    let mut i: usize = 0;
    while i < folders.len()
        invariant
            start.wf(),
            folders.wf(),
            folders.key_seq() == keys,
            start.key_seq() == keys,
            start == *old(folders),
            n == rows@.len() <= usize::MAX,
            i <= keys.len(),
            holds_rows(start, rows@, profiles@, n),
            forall|k: int|
                0 <= k < i ==> (#[trigger] folders.value_seq()[k]).wf()
                    && folders.value_seq()[k].sums_up(
                    rows@,
                    profiles@,
                    n,
                    keys[k],
                    folder_tokens(keys[k]),
                ),
            forall|k: int|
                i <= k < keys.len() ==> #[trigger] folders.value_seq()[k] == start.value_seq()[k],
        decreases keys.len() - i,
    {
        let ghost list = rows_tokens(rows@, profiles@, n, keys[i as int]);
        let ghost held = folders.value_seq();
        let added = tokens_of_folder(folders.key_at(i).as_str());
        proof {
            start.lemma_entries();
            lemma_light_total(added@);
            assert(HEAVIEST * added@.len() <= 7500 * usize::MAX) by (nonlinear_arith)
                requires
                    added@.len() <= 3 * usize::MAX,
                    HEAVIEST == 2500,
            ;
            assert(start@.contains_key(keys[i as int]));
            assert(list + Seq::<(Seq<char>, nat)>::empty() =~= list);
            assert(held[i as int] == start.value_seq()[i as int]);
        }
        let signature = folders.value_mut(i);
        add_tokens(signature, &added, Ghost(list));
        proof {
            lemma_total_concat(list, weighted(added@));
            assert(55_000 * n + 7500 * usize::MAX <= MAX_FOLDER_WEIGHT);
            assert forall|k: int| 0 <= k < i + 1 implies (
            #[trigger] folders.value_seq()[k]).wf() && folders.value_seq()[k].sums_up(
                rows@,
                profiles@,
                n,
                keys[k],
                folder_tokens(keys[k]),
            ) by {
                if k < i {
                    assert(folders.value_seq()[k] == held[k]);
                }
            }
            assert forall|k: int| i + 1 <= k < keys.len() implies #[trigger] folders.value_seq()[k]
                == start.value_seq()[k] by {
                assert(folders.value_seq()[k] == held[k]);
            }
        }
        i = i + 1;
    }
    proof {
        let done = *folders;
        done.lemma_entries();
        start.lemma_entries();
        assert(folders_of(rows@).take(n) =~= folders_of(rows@));
        assert forall|f: Seq<char>| keys.contains(f) <==> folders_of(rows@).contains(f) by {
            assert(start@.contains_key(f) <==> keys.contains(f));
        }
        lemma_sorted_set_unique(keys, folders_of(rows@));
        assert forall|f: Seq<char>| #[trigger] done@.contains_key(f) implies done@[f].wf()
            && done@[f].sums_up(rows@, profiles@, n, f, folder_tokens(f)) by {
            let k = keys.index_of(f);
            assert(keys[k] == f);
            assert(done@[keys[k]] == done.value_seq()[k]);
        }
    }
}

/// The signatures of the folders of the rows, with the profiles at hand.
pub fn build_folder_signatures_with_profiles(
    rows: &Vec<FileRecord>,
    profiles: &TextMap<FileFingerprintProfile>,
) -> (r: TextMap<FolderSignature>)
    requires
        profiles.wf(),
        forall|f: Seq<char>| #[trigger] folder_bytes(rows@, rows@.len() as int, f) <= u64::MAX,
    ensures
        are_signatures(r, rows@, profiles@),
        sound(r),
{
    let mut folders: TextMap<FolderSignature> = TextMap::new();
    let mut n: usize = 0;
    proof {
        assert(folders_of(rows@).take(0) =~= Seq::empty());
    }
    while n < rows.len()
        invariant
            profiles.wf(),
            n <= rows@.len(),
            holds_rows(folders, rows@, profiles@, n as int),
            forall|f: Seq<char>| #[trigger] folder_bytes(rows@, rows@.len() as int, f) <= u64::MAX,
        decreases rows@.len() - n,
    {
        add_row(&mut folders, rows, n, profiles);
        n = n + 1;
    }
    assert(rows@.len() == rows.len());
    add_folders(&mut folders, Ghost(rows@), Ghost(profiles@));
    folders
}

/// The signatures of the folders of the rows.
pub fn build_folder_signatures(rows: &Vec<FileRecord>) -> (r: TextMap<FolderSignature>)
    requires
        forall|f: Seq<char>| #[trigger] folder_bytes(rows@, rows@.len() as int, f) <= u64::MAX,
    ensures
        are_signatures(r, rows@, Map::<Seq<char>, FileFingerprintProfile>::empty()),
        sound(r),
{
    let none: TextMap<FileFingerprintProfile> = TextMap::new();
    build_folder_signatures_with_profiles(rows, &none)
}

} // verus!
