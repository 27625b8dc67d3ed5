//! Laws of what the files of a folder leave, and of what two folders share.

use crate::archive::{
    archive_extension, archive_signature_of, family_words, virtual_member_of, virtual_path_of,
};
use crate::dossier::{
    archive_tokens, are_signatures, ext_signature, extension_tokens, folder_bytes, folder_files,
    folder_names, folder_of, folder_tokens, folders_of, has_token, kind_tokens, lemma_total_concat,
    lower_ext, lower_stem, name_path_tokens, name_tokens, optional, profile_for, row_tokens,
    rows_tokens, sum_of, total_weight, weight_of, FolderSignature,
};
use crate::fingerprint::{lower_name, FileFingerprintProfile, Profile};
use crate::matching::{
    common_weight, family_count, family_of, overlap, shared_weight, tells_of, DossierMatch,
    DossierTokenFamily,
};
use crate::number::decimal;
use crate::path::{path_extension, path_file_name, path_stem};
use crate::record::FileRecord;
use crate::text::{ascii_lower, before_first, joined, opt_text, unicode_lower};
use crate::textmap::{lemma_sorted_set, TextMap};
use vstd::prelude::*;

verus! {

proof fn lemma_label(label: Seq<char>, text: Seq<char>)
    requires
        !label.contains(':'),
    ensures
        before_first(label + seq![':'] + text, ':') == label,
        (label + seq![':'] + text).contains(':'),
    decreases label.len(),
{
    let s = label + seq![':'] + text;
    assert(s[label.len() as int] == ':');
    if label.len() > 0 {
        assert(s[0] == label[0]);
        assert(label.contains(label[0]));
        let rest = label.drop_first();
        assert forall|i: int| 0 <= i < rest.len() implies rest[i] != ':' by {
            assert(label.contains(label[i + 1]));
        }
        lemma_label(rest, text);
        assert(s.drop_first() =~= rest + seq![':'] + text);
        assert(label =~= seq![label[0]] + rest);
    }
}

/// The label of a token is what stands before its first colon, whatever comes
/// after.
proof fn lemma_families(label: &str, text: Seq<char>)
    requires
        !label@.contains(':'),
    ensures
        before_first(label@ + seq![':'] + text, ':') == label@,
        (label@ + seq![':'] + text).contains(':'),
        label@ != "BIN"@ && label@ != "TEXT"@ ==> label@ + seq![':'] + text != "BIN:binary"@
            && label@ + seq![':'] + text != "TEXT:text"@,
{
    lemma_label(label@, text);
    reveal_strlit("BIN");
    reveal_strlit("TEXT");
    reveal_strlit("BIN:binary");
    reveal_strlit("TEXT:text");
    lemma_label("BIN"@, "BIN:binary"@.skip(4));
    assert("BIN"@ + seq![':'] + "BIN:binary"@.skip(4) =~= "BIN:binary"@);
    lemma_label("TEXT"@, "TEXT:text"@.skip(5));
    assert("TEXT"@ + seq![':'] + "TEXT:text"@.skip(5) =~= "TEXT:text"@);
}

/// The tokens of the file names are told apart by their labels, whatever text follows.
pub proof fn law_labels_of_names(t: Seq<char>)
    ensures
        family_of("N:"@ + t) == DossierTokenFamily::ExactFileName,
        family_of("NF:"@ + t) == DossierTokenFamily::NormalizedFileName,
        family_of("S:"@ + t) == DossierTokenFamily::FileStem,
        family_of("E:"@ + t) == DossierTokenFamily::FileExtension,
        family_of("ES:"@ + t) == DossierTokenFamily::ExtensionStem,
{
    reveal_strlit("BIN");
    reveal_strlit("TEXT");
    reveal_strlit("N");
    reveal_strlit("NF");
    reveal_strlit("S");
    reveal_strlit("E");
    reveal_strlit("ES");
    reveal_strlit("H");
    reveal_strlit("ARCH");
    reveal_strlit("ARCHFAM");
    reveal_strlit("ARCHSIG");
    reveal_strlit("ARCHPAY");
    reveal_strlit("ARCHVIRT");
    reveal_strlit("ARCHMEM");
    reveal_strlit("ARCHDEPTH");
    reveal_strlit("LANG");
    reveal_strlit("TEXTSIG");
    reveal_strlit("SIZE");
    reveal_strlit("SZB");
    reveal_strlit("BINSIG");
    reveal_strlit("NFP");
    reveal_strlit("F");
    reveal_strlit("FD");
    reveal_strlit("FP");
    reveal_strlit("BINDESC");
    reveal_strlit("N:");
    reveal_strlit("NF:");
    reveal_strlit("S:");
    reveal_strlit("E:");
    reveal_strlit("ES:");
    lemma_families("N", t);
    assert("N:"@ + t =~= "N"@ + seq![':'] + t);
    lemma_families("NF", t);
    assert("NF:"@ + t =~= "NF"@ + seq![':'] + t);
    lemma_families("S", t);
    assert("S:"@ + t =~= "S"@ + seq![':'] + t);
    lemma_families("E", t);
    assert("E:"@ + t =~= "E"@ + seq![':'] + t);
    lemma_families("ES", t);
    assert("ES:"@ + t =~= "ES"@ + seq![':'] + t);
}

/// The tokens of the contents are told apart by their labels, whatever text follows.
pub proof fn law_labels_of_contents(t: Seq<char>)
    ensures
        family_of("H:"@ + t) == DossierTokenFamily::Hash,
        family_of("LANG:"@ + t) == DossierTokenFamily::Language,
        family_of("TEXTSIG:"@ + t) == DossierTokenFamily::Language,
        family_of("SIZE:"@ + t) == DossierTokenFamily::SizeClass,
        family_of("SZB:"@ + t) == DossierTokenFamily::SizeClass,
        family_of("BINSIG:"@ + t) == DossierTokenFamily::Binaryity,
        family_of("BINDESC:"@ + t) == DossierTokenFamily::Other,
{
    reveal_strlit("BIN");
    reveal_strlit("TEXT");
    reveal_strlit("N");
    reveal_strlit("NF");
    reveal_strlit("S");
    reveal_strlit("E");
    reveal_strlit("ES");
    reveal_strlit("H");
    reveal_strlit("ARCH");
    reveal_strlit("ARCHFAM");
    reveal_strlit("ARCHSIG");
    reveal_strlit("ARCHPAY");
    reveal_strlit("ARCHVIRT");
    reveal_strlit("ARCHMEM");
    reveal_strlit("ARCHDEPTH");
    reveal_strlit("LANG");
    reveal_strlit("TEXTSIG");
    reveal_strlit("SIZE");
    reveal_strlit("SZB");
    reveal_strlit("BINSIG");
    reveal_strlit("NFP");
    reveal_strlit("F");
    reveal_strlit("FD");
    reveal_strlit("FP");
    reveal_strlit("BINDESC");
    reveal_strlit("H:");
    reveal_strlit("LANG:");
    reveal_strlit("TEXTSIG:");
    reveal_strlit("SIZE:");
    reveal_strlit("SZB:");
    reveal_strlit("BINSIG:");
    reveal_strlit("BINDESC:");
    lemma_families("H", t);
    assert("H:"@ + t =~= "H"@ + seq![':'] + t);
    lemma_families("LANG", t);
    assert("LANG:"@ + t =~= "LANG"@ + seq![':'] + t);
    lemma_families("TEXTSIG", t);
    assert("TEXTSIG:"@ + t =~= "TEXTSIG"@ + seq![':'] + t);
    lemma_families("SIZE", t);
    assert("SIZE:"@ + t =~= "SIZE"@ + seq![':'] + t);
    lemma_families("SZB", t);
    assert("SZB:"@ + t =~= "SZB"@ + seq![':'] + t);
    lemma_families("BINSIG", t);
    assert("BINSIG:"@ + t =~= "BINSIG"@ + seq![':'] + t);
    lemma_families("BINDESC", t);
    assert("BINDESC:"@ + t =~= "BINDESC"@ + seq![':'] + t);
}

/// The tokens of the archives are told apart by their labels, whatever text follows.
pub proof fn law_labels_of_archives(t: Seq<char>)
    ensures
        family_of("ARCH:"@ + t) == DossierTokenFamily::ArchiveFamily,
        family_of("ARCHFAM:"@ + t) == DossierTokenFamily::ArchiveFamily,
        family_of("ARCHSIG:"@ + t) == DossierTokenFamily::ArchiveSignature,
        family_of("ARCHPAY:"@ + t) == DossierTokenFamily::ArchiveSignature,
        family_of("ARCHVIRT:"@ + t) == DossierTokenFamily::ArchiveSignature,
        family_of("ARCHMEM:"@ + t) == DossierTokenFamily::ArchiveSignature,
        family_of("ARCHDEPTH:"@ + t) == DossierTokenFamily::ArchiveSignature,
{
    reveal_strlit("BIN");
    reveal_strlit("TEXT");
    reveal_strlit("N");
    reveal_strlit("NF");
    reveal_strlit("S");
    reveal_strlit("E");
    reveal_strlit("ES");
    reveal_strlit("H");
    reveal_strlit("ARCH");
    reveal_strlit("ARCHFAM");
    reveal_strlit("ARCHSIG");
    reveal_strlit("ARCHPAY");
    reveal_strlit("ARCHVIRT");
    reveal_strlit("ARCHMEM");
    reveal_strlit("ARCHDEPTH");
    reveal_strlit("LANG");
    reveal_strlit("TEXTSIG");
    reveal_strlit("SIZE");
    reveal_strlit("SZB");
    reveal_strlit("BINSIG");
    reveal_strlit("NFP");
    reveal_strlit("F");
    reveal_strlit("FD");
    reveal_strlit("FP");
    reveal_strlit("BINDESC");
    reveal_strlit("ARCH:");
    reveal_strlit("ARCHFAM:");
    reveal_strlit("ARCHSIG:");
    reveal_strlit("ARCHPAY:");
    reveal_strlit("ARCHVIRT:");
    reveal_strlit("ARCHMEM:");
    reveal_strlit("ARCHDEPTH:");
    lemma_families("ARCH", t);
    assert("ARCH:"@ + t =~= "ARCH"@ + seq![':'] + t);
    lemma_families("ARCHFAM", t);
    assert("ARCHFAM:"@ + t =~= "ARCHFAM"@ + seq![':'] + t);
    assert("ARCHSIG"@[4] != "ARCHFAM"@[4]);
    assert("ARCHPAY"@[4] != "ARCHFAM"@[4]);
    assert("ARCHMEM"@[4] != "ARCHFAM"@[4]);
    lemma_families("ARCHSIG", t);
    assert("ARCHSIG:"@ + t =~= "ARCHSIG"@ + seq![':'] + t);
    lemma_families("ARCHPAY", t);
    assert("ARCHPAY:"@ + t =~= "ARCHPAY"@ + seq![':'] + t);
    lemma_families("ARCHVIRT", t);
    assert("ARCHVIRT:"@ + t =~= "ARCHVIRT"@ + seq![':'] + t);
    lemma_families("ARCHMEM", t);
    assert("ARCHMEM:"@ + t =~= "ARCHMEM"@ + seq![':'] + t);
    lemma_families("ARCHDEPTH", t);
    assert("ARCHDEPTH:"@ + t =~= "ARCHDEPTH"@ + seq![':'] + t);
}

/// The tokens of the folders are told apart by their labels, whatever text follows.
pub proof fn law_labels_of_folders(t: Seq<char>)
    ensures
        family_of("NFP:"@ + t) == DossierTokenFamily::NormalizedFolder,
        family_of("F:"@ + t) == DossierTokenFamily::Folder,
        family_of("FD:"@ + t) == DossierTokenFamily::Folder,
        family_of("FP:"@ + t) == DossierTokenFamily::Folder,
{
    reveal_strlit("BIN");
    reveal_strlit("TEXT");
    reveal_strlit("N");
    reveal_strlit("NF");
    reveal_strlit("S");
    reveal_strlit("E");
    reveal_strlit("ES");
    reveal_strlit("H");
    reveal_strlit("ARCH");
    reveal_strlit("ARCHFAM");
    reveal_strlit("ARCHSIG");
    reveal_strlit("ARCHPAY");
    reveal_strlit("ARCHVIRT");
    reveal_strlit("ARCHMEM");
    reveal_strlit("ARCHDEPTH");
    reveal_strlit("LANG");
    reveal_strlit("TEXTSIG");
    reveal_strlit("SIZE");
    reveal_strlit("SZB");
    reveal_strlit("BINSIG");
    reveal_strlit("NFP");
    reveal_strlit("F");
    reveal_strlit("FD");
    reveal_strlit("FP");
    reveal_strlit("BINDESC");
    reveal_strlit("NFP:");
    reveal_strlit("F:");
    reveal_strlit("FD:");
    reveal_strlit("FP:");
    lemma_families("NFP", t);
    assert("NFP:"@ + t =~= "NFP"@ + seq![':'] + t);
    lemma_families("F", t);
    assert("F:"@ + t =~= "F"@ + seq![':'] + t);
    lemma_families("FD", t);
    assert("FD:"@ + t =~= "FD"@ + seq![':'] + t);
    lemma_families("FP", t);
    assert("FP:"@ + t =~= "FP"@ + seq![':'] + t);
}

/// Whether a file is binary is told by two tokens, which are of one family.
pub proof fn law_labels_of_binaryity()
    ensures
        family_of("BIN:binary"@) == DossierTokenFamily::Binaryity,
        family_of("TEXT:text"@) == DossierTokenFamily::Binaryity,
{
}

/// A text without a colon is a token of no family.
pub proof fn law_no_label(t: Seq<char>)
    requires
        !t.contains(':'),
    ensures
        family_of(t) == DossierTokenFamily::Other,
{
    reveal_strlit("BIN:binary");
    reveal_strlit("TEXT:text");
    assert("BIN:binary"@[3] == ':');
    assert("TEXT:text"@[4] == ':');
}

// ---------------------------------------------------------------------------
// The tokens of a file
// ---------------------------------------------------------------------------

/// A file leaves its name, whole and normalized, its stem and its extension,
/// the name weighing the most.
pub proof fn law_names_leave_tokens(row: FileRecord, p: Profile)
    ensures
        path_file_name(row.rel_path@) matches Some(name) ==> row_tokens(row, p).contains(
            ("N:"@ + unicode_lower(name), 1000),
        ),
        row_tokens(row, p).contains(("NF:"@ + p.normalized_name, 850)),
        p.normalized_folder.len() > 0 ==> row_tokens(row, p).contains(
            ("NFP:"@ + p.normalized_folder, 150),
        ),
        path_stem(row.rel_path@) matches Some(stem) ==> row_tokens(row, p).contains(
            ("S:"@ + unicode_lower(stem), 350),
        ),
        path_extension(row.rel_path@) matches Some(ext) ==> unicode_lower(ext).len() > 0
            ==> row_tokens(row, p).contains(("E:"@ + unicode_lower(ext), 200)),
        (path_stem(row.rel_path@) matches Some(stem) && path_extension(row.rel_path@) matches Some(
            ext,
        ) && unicode_lower(ext).len() > 0 && archive_extension(
            ascii_lower(lower_name(row.rel_path@)),
        ) is None) ==> row_tokens(row, p).contains(
            (
                "ES:"@ + unicode_lower(path_stem(row.rel_path@)->0) + ":"@ + unicode_lower(
                    path_extension(row.rel_path@)->0,
                ),
                550,
            ),
        ),
{
    broadcast use vstd::seq_lib::lemma_seq_concat_contains_all_elements;

    let rel = row.rel_path@;
    let stem = lower_stem(rel);
    let ext = lower_ext(rel);
    let sig = ext_signature(rel);
    let first = seq![
        ("N:"@ + lower_name(rel), 1000 as nat),
        ("NF:"@ + p.normalized_name, 850 as nat),
    ];
    assert(first[0] == ("N:"@ + lower_name(rel), 1000 as nat));
    assert(first[1] == ("NF:"@ + p.normalized_name, 850 as nat));
    let third = seq![("S:"@ + stem, 350 as nat)];
    assert(third[0] == ("S:"@ + stem, 350 as nat));
    let second = seq![("NFP:"@ + p.normalized_folder, 150 as nat)];
    assert(second[0] == ("NFP:"@ + p.normalized_folder, 150 as nat));
    let fourth = extension_tokens(stem, ext, sig);
    assert(fourth[0] == ("E:"@ + ext, 200 as nat));
    assert(fourth[1] == ("ES:"@ + stem + ":"@ + sig, 550 as nat));
}

/// A file leaves whether it is binary or text, one of the two and no other,
/// with the signature of its kind, its language where that is known, and the
/// class of its size.
pub proof fn law_contents_leave_tokens(row: FileRecord, p: Profile)
    ensures
        p.is_binary ==> row_tokens(row, p).contains(("BIN:binary"@, 400)),
        !p.is_binary ==> row_tokens(row, p).contains(("TEXT:text"@, 400)),
        p.is_binary ==> (p.binary_signature matches Some(s) ==> row_tokens(row, p).contains(
            ("BINSIG:"@ + s, 320),
        )),
        p.is_binary ==> (p.binary_descriptor matches Some(s) ==> row_tokens(row, p).contains(
            ("BINDESC:"@ + s, 30),
        )),
        !p.is_binary ==> (p.text_signature matches Some(s) ==> row_tokens(row, p).contains(
            ("TEXTSIG:"@ + s, 300),
        )),
        p.language.len() > 0 && p.language != "unknown"@ ==> row_tokens(row, p).contains(
            ("LANG:"@ + p.language, 280),
        ),
        p.size_class.len() > 0 ==> row_tokens(row, p).contains(("SIZE:"@ + p.size_class, 180))
            && row_tokens(row, p).contains(("SZB:"@ + p.size_class, 180)),
{
    broadcast use vstd::seq_lib::lemma_seq_concat_contains_all_elements;

    assert(seq![("BIN:binary"@, 400 as nat)][0] == ("BIN:binary"@, 400 as nat));
    assert(seq![("TEXT:text"@, 400 as nat)][0] == ("TEXT:text"@, 400 as nat));
    if let Some(s) = p.binary_signature {
        assert(optional("BINSIG:"@, p.binary_signature, 320)[0] == ("BINSIG:"@ + s, 320 as nat));
    }
    if let Some(s) = p.binary_descriptor {
        assert(optional("BINDESC:"@, p.binary_descriptor, 30)[0] == ("BINDESC:"@ + s, 30 as nat));
    }
    if let Some(s) = p.text_signature {
        assert(optional("TEXTSIG:"@, p.text_signature, 300)[0] == ("TEXTSIG:"@ + s, 300 as nat));
    }
    assert(seq![("LANG:"@ + p.language, 280 as nat)][0] == ("LANG:"@ + p.language, 280 as nat));
    let sizes = seq![("SIZE:"@ + p.size_class, 180 as nat), ("SZB:"@ + p.size_class, 180 as nat)];
    assert(sizes[0] == ("SIZE:"@ + p.size_class, 180 as nat));
    assert(sizes[1] == ("SZB:"@ + p.size_class, 180 as nat));
}

/// A file that was hashed leaves its hash, which weighs more than anything
/// else.
pub proof fn law_hash_leaves_a_token(row: FileRecord, p: Profile)
    ensures
        row.fast_hash matches Some(h) ==> row_tokens(row, p).contains(("H:"@ + h@, 2500)),
{
    broadcast use vstd::seq_lib::lemma_seq_concat_contains_all_elements;

    if let Some(h) = row.fast_hash {
        assert(optional("H:"@, opt_text(row.fast_hash), 2500)[0] == ("H:"@ + h@, 2500 as nat));
    }
}

/// An archive leaves its family, the signatures of the family and of what it
/// holds, and the paths under which its members are reached.
pub proof fn law_archives_leave_tokens(row: FileRecord, p: Profile)
    ensures
        p.archive_family matches Some(family) ==> {
            &&& row_tokens(row, p).contains(("ARCH:"@ + family, 350))
            &&& row_tokens(row, p).contains(("ARCHFAM:"@ + family, 350))
            &&& archive_signature_of(family) matches Some(s) ==> row_tokens(row, p).contains(
                ("ARCHSIG:"@ + s, 220),
            )
            &&& p.archive_signature matches Some(s) ==> row_tokens(row, p).contains(
                ("ARCHPAY:"@ + s, 220),
            )
            &&& row_tokens(row, p).contains(("ARCHVIRT:"@ + virtual_path_of(row.rel_path@), 220))
            &&& row_tokens(row, p).contains(("ARCHMEM:"@ + virtual_member_of(row.rel_path@), 132))
            &&& row_tokens(row, p).contains(
                ("ARCHDEPTH:"@ + decimal(family_words(family).len()), 110),
            )
        },
{
    broadcast use vstd::seq_lib::lemma_seq_concat_contains_all_elements;

    if let Some(family) = p.archive_family {
        let rel = row.rel_path@;
        let first = seq![("ARCH:"@ + family, 350 as nat), ("ARCHFAM:"@ + family, 350 as nat)];
        assert(first[0] == ("ARCH:"@ + family, 350 as nat));
        assert(first[1] == ("ARCHFAM:"@ + family, 350 as nat));
        if let Some(s) = archive_signature_of(family) {
            assert(optional("ARCHSIG:"@, archive_signature_of(family), 220)[0] == (
                "ARCHSIG:"@ + s,
                220 as nat,
            ));
        }
        if let Some(s) = p.archive_signature {
            assert(optional("ARCHPAY:"@, p.archive_signature, 220)[0] == (
                "ARCHPAY:"@ + s,
                220 as nat,
            ));
        }
        let last = seq![
            ("ARCHVIRT:"@ + virtual_path_of(rel), 220 as nat),
            ("ARCHMEM:"@ + virtual_member_of(rel), 132 as nat),
            ("ARCHDEPTH:"@ + decimal(family_words(family).len()), 110 as nat),
        ];
        assert(last[0] == ("ARCHVIRT:"@ + virtual_path_of(rel), 220 as nat));
        assert(last[1] == ("ARCHMEM:"@ + virtual_member_of(rel), 132 as nat));
        assert(last[2] == ("ARCHDEPTH:"@ + decimal(family_words(family).len()), 110 as nat));
    }
}

/// What a file weighs: a name of its own, a stem and a kind always count, and
/// each thing more that is known of it adds its part, with nothing counted
/// beside.
pub proof fn law_weight_of_a_file(row: FileRecord, p: Profile)
    ensures
        total_weight(row_tokens(row, p)) == 2600 + (if p.normalized_folder.len() > 0 {
            150int
        } else {
            0
        }) + (if lower_ext(row.rel_path@).len() > 0 {
            750int
        } else {
            0
        }) + (if ext_signature(row.rel_path@).len() > 0 && ext_signature(row.rel_path@)[0] == '.' {
            750int
        } else {
            0
        }) + (if p.is_binary && p.binary_signature is Some {
            320int
        } else {
            0
        }) + (if p.is_binary && p.binary_descriptor is Some {
            30int
        } else {
            0
        }) + (if !p.is_binary && p.text_signature is Some {
            300int
        } else {
            0
        }) + (if p.language.len() > 0 && p.language != "unknown"@ {
            280int
        } else {
            0
        }) + (if p.size_class.len() > 0 {
            360int
        } else {
            0
        }) + (if p.archive_family is Some {
            1162int
        } else {
            0
        }) + (if p.archive_family is Some && archive_signature_of(p.archive_family->0) is Some {
            220int
        } else {
            0
        }) + (if p.archive_family is Some && p.archive_signature is Some {
            220int
        } else {
            0
        }) + (if row.fast_hash is Some {
            2500int
        } else {
            0
        }),
{
    lemma_weight_of_names(row.rel_path@, p);
    lemma_weight_of_kind(p);
    lemma_weight_of_archive(row.rel_path@, p);
    let a = name_tokens(row.rel_path@, p);
    let b = kind_tokens(p);
    let c = archive_tokens(row.rel_path@, p);
    let d = optional("H:"@, opt_text(row.fast_hash), 2500);
    lemma_total_concat(a, b);
    lemma_total_concat(a + b, c);
    lemma_total_concat(a + b + c, d);
    lemma_weight_of_optional("H:"@, opt_text(row.fast_hash), 2500);
}

proof fn lemma_weight_of_one(x: (Seq<char>, nat))
    ensures
        total_weight(seq![x]) == x.1,
        total_weight(Seq::<(Seq<char>, nat)>::empty()) == 0,
{
    assert(seq![x].drop_last() =~= Seq::empty());
    assert(total_weight(seq![x].drop_last()) == 0);
}

proof fn lemma_weight_of_two(x: (Seq<char>, nat), y: (Seq<char>, nat))
    ensures
        total_weight(seq![x, y]) == x.1 + y.1,
{
    lemma_weight_of_one(x);
    assert(seq![x, y].drop_last() =~= seq![x]);
}

proof fn lemma_weight_of_optional(label: Seq<char>, text: Option<Seq<char>>, weight: nat)
    ensures
        total_weight(optional(label, text, weight)) == if text is Some {
            weight
        } else {
            0
        },
{
    lemma_weight_of_one((label + text->0, weight));
}

proof fn lemma_weight_of_names(rel: Seq<char>, p: Profile)
    ensures
        total_weight(name_tokens(rel, p)) == 2200 + (if p.normalized_folder.len() > 0 {
            150int
        } else {
            0
        }) + (if lower_ext(rel).len() > 0 {
            750int
        } else {
            0
        }) + (if ext_signature(rel).len() > 0 && ext_signature(rel)[0] == '.' {
            750int
        } else {
            0
        }),
{
    let stem = lower_stem(rel);
    let ext = lower_ext(rel);
    let sig = ext_signature(rel);
    let none = Seq::<(Seq<char>, nat)>::empty();
    let a = seq![("N:"@ + lower_name(rel), 1000 as nat), ("NF:"@ + p.normalized_name, 850 as nat)];
    lemma_weight_of_two(a[0], a[1]);
    let b = if p.normalized_folder.len() > 0 {
        seq![("NFP:"@ + p.normalized_folder, 150 as nat)]
    } else {
        none
    };
    lemma_weight_of_one(("NFP:"@ + p.normalized_folder, 150 as nat));
    let c = seq![("S:"@ + stem, 350 as nat)];
    lemma_weight_of_one(c[0]);
    let d = if ext.len() > 0 {
        extension_tokens(stem, ext, sig)
    } else {
        none
    };
    lemma_weight_of_two(("E:"@ + ext, 200 as nat), ("ES:"@ + stem + ":"@ + sig, 550 as nat));
    let plain = sig.skip(1);
    let e = if sig.len() > 0 && sig[0] == '.' {
        extension_tokens(stem, plain, plain)
    } else {
        none
    };
    lemma_weight_of_two(("E:"@ + plain, 200 as nat), ("ES:"@ + stem + ":"@ + plain, 550 as nat));
    lemma_total_concat(a, b);
    lemma_total_concat(a + b, c);
    lemma_total_concat(a + b + c, d);
    lemma_total_concat(a + b + c + d, e);
    assert(name_tokens(rel, p) == a + b + c + d + e);
}

proof fn lemma_weight_of_kind(p: Profile)
    ensures
        total_weight(kind_tokens(p)) == 400 + (if p.is_binary && p.binary_signature is Some {
            320int
        } else {
            0
        }) + (if p.is_binary && p.binary_descriptor is Some {
            30int
        } else {
            0
        }) + (if !p.is_binary && p.text_signature is Some {
            300int
        } else {
            0
        }) + (if p.language.len() > 0 && p.language != "unknown"@ {
            280int
        } else {
            0
        }) + (if p.size_class.len() > 0 {
            360int
        } else {
            0
        }),
{
    let none = Seq::<(Seq<char>, nat)>::empty();
    let binary = seq![("BIN:binary"@, 400 as nat)];
    let text = seq![("TEXT:text"@, 400 as nat)];
    lemma_weight_of_one(binary[0]);
    lemma_weight_of_one(text[0]);
    let s = optional("BINSIG:"@, p.binary_signature, 320);
    let d = optional("BINDESC:"@, p.binary_descriptor, 30);
    let t = optional("TEXTSIG:"@, p.text_signature, 300);
    lemma_weight_of_optional("BINSIG:"@, p.binary_signature, 320);
    lemma_weight_of_optional("BINDESC:"@, p.binary_descriptor, 30);
    lemma_weight_of_optional("TEXTSIG:"@, p.text_signature, 300);
    lemma_total_concat(binary, s);
    lemma_total_concat(binary + s, d);
    lemma_total_concat(text, t);
    let a = if p.is_binary {
        binary + s + d
    } else {
        text + t
    };
    let b = if p.language != "unknown"@ && p.language.len() > 0 {
        seq![("LANG:"@ + p.language, 280 as nat)]
    } else {
        none
    };
    lemma_weight_of_one(("LANG:"@ + p.language, 280 as nat));
    let c = if p.size_class.len() > 0 {
        seq![("SIZE:"@ + p.size_class, 180 as nat), ("SZB:"@ + p.size_class, 180 as nat)]
    } else {
        none
    };
    lemma_weight_of_two(
        ("SIZE:"@ + p.size_class, 180 as nat),
        ("SZB:"@ + p.size_class, 180 as nat),
    );
    lemma_total_concat(a, b);
    lemma_total_concat(a + b, c);
    assert(kind_tokens(p) == a + b + c);
}

proof fn lemma_weight_of_archive(rel: Seq<char>, p: Profile)
    ensures
        total_weight(archive_tokens(rel, p)) == if p.archive_family is Some {
            1162 + (if archive_signature_of(p.archive_family->0) is Some {
                220int
            } else {
                0
            }) + (if p.archive_signature is Some {
                220int
            } else {
                0
            })
        } else {
            0
        },
{
    if let Some(family) = p.archive_family {
        let a = seq![("ARCH:"@ + family, 350 as nat), ("ARCHFAM:"@ + family, 350 as nat)];
        lemma_weight_of_two(a[0], a[1]);
        let b = optional("ARCHSIG:"@, archive_signature_of(family), 220);
        lemma_weight_of_optional("ARCHSIG:"@, archive_signature_of(family), 220);
        let c = optional("ARCHPAY:"@, p.archive_signature, 220);
        lemma_weight_of_optional("ARCHPAY:"@, p.archive_signature, 220);
        let d = seq![
            ("ARCHVIRT:"@ + virtual_path_of(rel), 220 as nat),
            ("ARCHMEM:"@ + virtual_member_of(rel), 132 as nat),
            ("ARCHDEPTH:"@ + decimal(family_words(family).len()), 110 as nat),
        ];
        lemma_weight_of_two(d[0], d[1]);
        assert(d.drop_last() =~= seq![d[0], d[1]]);
        lemma_total_concat(a, b);
        lemma_total_concat(a + b, c);
        lemma_total_concat(a + b + c, d);
        assert(archive_tokens(rel, p) == a + b + c + d);
    } else {
        lemma_weight_of_one((rel, 0));
    }
}

// ---------------------------------------------------------------------------
// The tokens of a folder
// ---------------------------------------------------------------------------

proof fn lemma_path_tokens(names: Seq<Seq<char>>, n: int, k: int)
    requires
        0 <= k < n <= names.len(),
    ensures
        name_path_tokens(names, n).contains(("F:"@ + names[k], 100)),
        name_path_tokens(names, n).contains(("FD:"@ + decimal(k as nat) + ":"@ + names[k], 20)),
        name_path_tokens(names, n).contains(
            ("FP:"@ + joined(names.take(k + 1), seq!['/']), 50),
        ),
        name_path_tokens(names, n).len() == 3 * n,
    decreases n,
{
    broadcast use vstd::seq_lib::lemma_seq_concat_contains_all_elements;

    let last = seq![
        ("F:"@ + names[n - 1], 100 as nat),
        ("FD:"@ + decimal((n - 1) as nat) + ":"@ + names[n - 1], 20 as nat),
        ("FP:"@ + joined(names.take(n), seq!['/']), 50 as nat),
    ];
    assert(last[0] == ("F:"@ + names[n - 1], 100 as nat));
    assert(last[1] == ("FD:"@ + decimal((n - 1) as nat) + ":"@ + names[n - 1], 20 as nat));
    assert(last[2] == ("FP:"@ + joined(names.take(n), seq!['/']), 50 as nat));
    if n > 1 {
        lemma_path_tokens(names, n - 1, if k < n - 1 {
            k
        } else {
            0
        });
    } else {
        assert(name_path_tokens(names, 0).len() == 0);
    }
}

/// Each name in a folder's path leaves three tokens: the name by itself, the
/// name with its depth, and the path down to it. Nothing else is left, and the
/// folder that the tree starts at leaves nothing.
pub proof fn law_folder_leaves_tokens(folder: Seq<char>, k: int)
    requires
        0 <= k < folder_names(folder).len(),
        folder.len() > 0,
        folder != "."@,
    ensures
        folder_tokens(folder).contains(("F:"@ + folder_names(folder)[k], 100)),
        folder_tokens(folder).contains(
            ("FD:"@ + decimal(k as nat) + ":"@ + folder_names(folder)[k], 20),
        ),
        folder_tokens(folder).contains(
            ("FP:"@ + joined(folder_names(folder).take(k + 1), seq!['/']), 50),
        ),
        folder_tokens(folder).len() == 3 * folder_names(folder).len(),
        folder_tokens("."@).len() == 0,
{
    let names = folder_names(folder);
    lemma_path_tokens(names, names.len() as int, k);
}

// ---------------------------------------------------------------------------
// The signature of a folder
// ---------------------------------------------------------------------------

proof fn lemma_weight_concat(a: Seq<(Seq<char>, nat)>, b: Seq<(Seq<char>, nat)>, t: Seq<char>)
    ensures
        weight_of(a + b, t) == weight_of(a, t) + weight_of(b, t),
        has_token(a + b, t) <==> has_token(a, t) || has_token(b, t),
    decreases b.len(),
{
    if b.len() == 0 {
        assert(a + b =~= a);
    } else {
        lemma_weight_concat(a, b.drop_last(), t);
        assert((a + b).drop_last() =~= a + b.drop_last());
        assert((a + b).last() == b.last());
    }
}

proof fn lemma_weight_at_least(list: Seq<(Seq<char>, nat)>, t: Seq<char>, w: nat)
    requires
        list.contains((t, w)),
    ensures
        has_token(list, t),
        weight_of(list, t) >= w,
    decreases list.len(),
{
    let i = choose|i: int| 0 <= i < list.len() && list[i] == (t, w);
    if i < list.len() - 1 {
        assert(list.drop_last()[i] == (t, w));
        lemma_weight_at_least(list.drop_last(), t, w);
    }
}

proof fn lemma_rows_leave(
    rows: Seq<FileRecord>,
    profiles: Map<Seq<char>, FileFingerprintProfile>,
    n: int,
    i: int,
    t: Seq<char>,
    w: nat,
)
    requires
        0 <= i < n <= rows.len(),
        row_tokens(rows[i], profile_for(rows[i], profiles)).contains((t, w)),
    ensures
        has_token(rows_tokens(rows, profiles, n, folder_of(rows[i].rel_path@)), t),
        weight_of(rows_tokens(rows, profiles, n, folder_of(rows[i].rel_path@)), t) >= w,
    decreases n,
{
    let f = folder_of(rows[i].rel_path@);
    let before = rows_tokens(rows, profiles, n - 1, f);
    let own = row_tokens(rows[n - 1], profile_for(rows[n - 1], profiles));
    lemma_weight_concat(before, own, t);
    if i == n - 1 {
        lemma_weight_at_least(own, t, w);
    } else {
        lemma_rows_leave(rows, profiles, n - 1, i, t, w);
    }
}

proof fn lemma_two_rows_leave(
    rows: Seq<FileRecord>,
    profiles: Map<Seq<char>, FileFingerprintProfile>,
    n: int,
    i: int,
    j: int,
    t: Seq<char>,
    v: nat,
    w: nat,
)
    requires
        0 <= i < j < n <= rows.len(),
        folder_of(rows[i].rel_path@) == folder_of(rows[j].rel_path@),
        row_tokens(rows[i], profile_for(rows[i], profiles)).contains((t, v)),
        row_tokens(rows[j], profile_for(rows[j], profiles)).contains((t, w)),
    ensures
        weight_of(rows_tokens(rows, profiles, n, folder_of(rows[i].rel_path@)), t) >= v + w,
    decreases n,
{
    let f = folder_of(rows[i].rel_path@);
    let before = rows_tokens(rows, profiles, n - 1, f);
    let own = row_tokens(rows[n - 1], profile_for(rows[n - 1], profiles));
    lemma_weight_concat(before, own, t);
    if j == n - 1 {
        lemma_weight_at_least(own, t, w);
        lemma_rows_leave(rows, profiles, n - 1, i, t, v);
    } else {
        lemma_two_rows_leave(rows, profiles, n - 1, i, j, t, v, w);
    }
}

proof fn lemma_folder_is_held(
    m: TextMap<FolderSignature>,
    rows: Seq<FileRecord>,
    profiles: Map<Seq<char>, FileFingerprintProfile>,
    i: int,
)
    requires
        are_signatures(m, rows, profiles),
        0 <= i < rows.len(),
    ensures
        m@.contains_key(folder_of(rows[i].rel_path@)),
{
    m.lemma_entries();
    lemma_sorted_set(folders_of(rows));
    assert(folders_of(rows)[i] == folder_of(rows[i].rel_path@));
    assert(folders_of(rows).contains(folder_of(rows[i].rel_path@)));
}

/// The folder of each file has a signature, which holds what the file leaves,
/// and at its full weight.
pub proof fn law_signature_holds_each_file(
    m: TextMap<FolderSignature>,
    rows: Seq<FileRecord>,
    profiles: Map<Seq<char>, FileFingerprintProfile>,
    i: int,
    t: Seq<char>,
    w: nat,
)
    requires
        are_signatures(m, rows, profiles),
        0 <= i < rows.len(),
        row_tokens(rows[i], profile_for(rows[i], profiles)).contains((t, w)),
    ensures
        m@.contains_key(folder_of(rows[i].rel_path@)),
        m@[folder_of(rows[i].rel_path@)].path@ == folder_of(rows[i].rel_path@),
        m@[folder_of(rows[i].rel_path@)].tokens@.contains_key(t),
        m@[folder_of(rows[i].rel_path@)].tokens@[t] >= w,
{
    let f = folder_of(rows[i].rel_path@);
    let n = rows.len() as int;
    lemma_folder_is_held(m, rows, profiles, i);
    lemma_rows_leave(rows, profiles, n, i, t, w);
    lemma_weight_concat(rows_tokens(rows, profiles, n, f), folder_tokens(f), t);
}

/// What two files of a folder both leave counts twice.
pub proof fn law_tokens_add_up(
    m: TextMap<FolderSignature>,
    rows: Seq<FileRecord>,
    profiles: Map<Seq<char>, FileFingerprintProfile>,
    i: int,
    j: int,
    t: Seq<char>,
    v: nat,
    w: nat,
)
    requires
        are_signatures(m, rows, profiles),
        0 <= i < j < rows.len(),
        folder_of(rows[i].rel_path@) == folder_of(rows[j].rel_path@),
        row_tokens(rows[i], profile_for(rows[i], profiles)).contains((t, v)),
        row_tokens(rows[j], profile_for(rows[j], profiles)).contains((t, w)),
    ensures
        m@[folder_of(rows[i].rel_path@)].tokens@[t] >= v + w,
{
    let f = folder_of(rows[i].rel_path@);
    let n = rows.len() as int;
    law_signature_holds_each_file(m, rows, profiles, i, t, v);
    lemma_two_rows_leave(rows, profiles, n, i, j, t, v, w);
    lemma_weight_concat(rows_tokens(rows, profiles, n, f), folder_tokens(f), t);
}

proof fn lemma_rows_weight(
    rows: Seq<FileRecord>,
    profiles: Map<Seq<char>, FileFingerprintProfile>,
    n: int,
    f: Seq<char>,
    t: Seq<char>,
)
    requires
        0 <= n <= rows.len(),
    ensures
        has_token(rows_tokens(rows, profiles, n, f), t) ==> exists|i: int|
            0 <= i < n && folder_of((#[trigger] rows[i]).rel_path@) == f && has_token(
                row_tokens(rows[i], profile_for(rows[i], profiles)),
                t,
            ),
    decreases n,
{
    if n > 0 {
        lemma_rows_weight(rows, profiles, n - 1, f, t);
        lemma_weight_concat(
            rows_tokens(rows, profiles, n - 1, f),
            row_tokens(rows[n - 1], profile_for(rows[n - 1], profiles)),
            t,
        );
    }
}

proof fn lemma_has_entry(list: Seq<(Seq<char>, nat)>, t: Seq<char>)
    requires
        has_token(list, t),
    ensures
        exists|w: nat| list.contains((t, w)),
    decreases list.len(),
{
    if list.last().0 == t {
        assert(list[list.len() - 1] == (t, list.last().1));
        assert(list.contains((t, list.last().1)));
    } else {
        lemma_has_entry(list.drop_last(), t);
        let w = choose|w: nat| list.drop_last().contains((t, w));
        let i = choose|i: int| 0 <= i < list.len() - 1 && list.drop_last()[i] == (t, w);
        assert(list[i] == (t, w));
        assert(list.contains((t, w)));
    }
}

/// Whether one of the rows of a folder leaves a token.
pub open spec fn left_by_a_file(
    rows: Seq<FileRecord>,
    profiles: Map<Seq<char>, FileFingerprintProfile>,
    f: Seq<char>,
    t: Seq<char>,
) -> bool {
    exists|i: int, w: nat|
        0 <= i < rows.len() && folder_of(rows[i].rel_path@) == f
            && #[trigger] row_tokens(rows[i], profile_for(rows[i], profiles)).contains((t, w))
}

/// A signature holds only what a file of its folder leaves, or the folder's own
/// path.
pub proof fn law_tokens_come_from_files(
    m: TextMap<FolderSignature>,
    rows: Seq<FileRecord>,
    profiles: Map<Seq<char>, FileFingerprintProfile>,
    f: Seq<char>,
    t: Seq<char>,
)
    requires
        are_signatures(m, rows, profiles),
        m@.contains_key(f),
        m@[f].tokens@.contains_key(t),
    ensures
        left_by_a_file(rows, profiles, f, t) || exists|w: nat| folder_tokens(f).contains((t, w)),
{
    let n = rows.len() as int;
    lemma_weight_concat(rows_tokens(rows, profiles, n, f), folder_tokens(f), t);
    if has_token(folder_tokens(f), t) {
        lemma_has_entry(folder_tokens(f), t);
    } else {
        lemma_rows_weight(rows, profiles, n, f, t);
        let i = choose|i: int|
            0 <= i < n && folder_of((#[trigger] rows[i]).rel_path@) == f && has_token(
                row_tokens(rows[i], profile_for(rows[i], profiles)),
                t,
            );
        lemma_has_entry(row_tokens(rows[i], profile_for(rows[i], profiles)), t);
    }
}

proof fn lemma_folder_files(rows: Seq<FileRecord>, n: int, f: Seq<char>)
    requires
        0 <= n <= rows.len(),
    ensures
        folder_files(rows, n, f) == rows.take(n).filter(
            |row: FileRecord| folder_of(row.rel_path@) == f,
        ).len(),
        folder_bytes(rows, n, f) == rows.take(n).filter(
            |row: FileRecord| folder_of(row.rel_path@) == f,
        ).map_values(|row: FileRecord| row.size as int).fold_left(0, |a: int, b: int| a + b),
    decreases n,
{
    reveal(Seq::filter);
    let of_f = |row: FileRecord| folder_of(row.rel_path@) == f;
    let size = |row: FileRecord| row.size as int;
    let plus = |a: int, b: int| a + b;
    if n > 0 {
        lemma_folder_files(rows, n - 1, f);
        assert(rows.take(n).drop_last() =~= rows.take(n - 1));
        assert(rows.take(n).last() == rows[n - 1]);
        let before = rows.take(n - 1).filter(of_f);
        let now = rows.take(n).filter(of_f);
        if of_f(rows[n - 1]) {
            assert(now == before.push(rows[n - 1]));
            assert(now.map_values(size).drop_last() =~= before.map_values(size));
            assert(now.map_values(size).last() == rows[n - 1].size as int);
        } else {
            assert(now == before);
        }
    } else {
        assert(rows.take(0).filter(of_f).len() == 0);
        assert(rows.take(0).filter(of_f).map_values(size).len() == 0);
    }
}

/// A signature counts the files that lie in its folder itself, and sums up
/// their sizes.
pub proof fn law_signature_counts_its_files(
    m: TextMap<FolderSignature>,
    rows: Seq<FileRecord>,
    profiles: Map<Seq<char>, FileFingerprintProfile>,
    f: Seq<char>,
)
    requires
        are_signatures(m, rows, profiles),
        m@.contains_key(f),
    ensures
        m@[f].files == rows.filter(|row: FileRecord| folder_of(row.rel_path@) == f).len(),
        m@[f].total_bytes == rows.filter(
            |row: FileRecord| folder_of(row.rel_path@) == f,
        ).map_values(|row: FileRecord| row.size as int).fold_left(0, |a: int, b: int| a + b),
{
    lemma_folder_files(rows, rows.len() as int, f);
    assert(rows.take(rows.len() as int) =~= rows);
}

// ---------------------------------------------------------------------------
// What two folders share
// ---------------------------------------------------------------------------

proof fn lemma_shared_at(l: TextMap<u128>, r: Map<Seq<char>, u128>, n: int, k: int)
    requires
        0 <= k < n <= l.key_seq().len(),
    ensures
        shared_weight(l, r, n) >= common_weight(l.key_seq()[k], l.value_seq()[k], r),
    decreases n,
{
    if k < n - 1 {
        lemma_shared_at(l, r, n - 1, k);
    }
}

/// Two folders share at least the lesser weight of each token that both hold.
pub proof fn law_shared_tokens_count(l: FolderSignature, r: FolderSignature, t: Seq<char>)
    requires
        l.wf(),
        l.tokens@.contains_key(t),
        r.tokens@.contains_key(t),
    ensures
        overlap(l, r) >= l.tokens@[t] || overlap(l, r) >= r.tokens@[t],
{
    l.tokens.lemma_entries();
    let k = choose|k: int| 0 <= k < l.tokens.key_seq().len() && l.tokens.key_seq()[k] == t;
    assert(l.tokens.key_seq()[k] == t);
    lemma_shared_at(l.tokens, r.tokens@, l.tokens.key_seq().len() as int, k);
}

proof fn lemma_nothing_shared(l: TextMap<u128>, r: Map<Seq<char>, u128>, n: int)
    requires
        0 <= n <= l.key_seq().len(),
        forall|i: int| 0 <= i < n ==> !r.contains_key(#[trigger] l.key_seq()[i]),
    ensures
        shared_weight(l, r, n) == 0,
    decreases n,
{
    if n > 0 {
        lemma_nothing_shared(l, r, n - 1);
        assert(!r.contains_key(l.key_seq()[n - 1]));
    }
}

/// Folders that hold no token in common share nothing.
pub proof fn law_strangers_share_nothing(l: FolderSignature, r: FolderSignature)
    requires
        l.wf(),
        forall|t: Seq<char>| #[trigger] l.tokens@.contains_key(t) ==> !r.tokens@.contains_key(t),
    ensures
        overlap(l, r) == 0,
{
    l.tokens.lemma_entries();
    lemma_nothing_shared(l.tokens, r.tokens@, l.tokens.key_seq().len() as int);
}

proof fn lemma_wholly_shared(l: TextMap<u128>, r: Map<Seq<char>, u128>, n: int)
    requires
        l.wf(),
        0 <= n <= l.key_seq().len(),
        l.key_seq().len() == l.value_seq().len(),
        forall|i: int|
            0 <= i < n ==> r.contains_key(#[trigger] l.key_seq()[i]) && l.value_seq()[i]
                <= r[l.key_seq()[i]],
    ensures
        shared_weight(l, r, n) == sum_of(l.value_seq().take(n)),
    decreases n,
{
    if n > 0 {
        lemma_wholly_shared(l, r, n - 1);
        assert(l.value_seq().take(n).drop_last() =~= l.value_seq().take(n - 1));
        assert(r.contains_key(l.key_seq()[n - 1]));
    }
}

/// A folder all of whose tokens another holds, and holds at no less weight,
/// shares all of its weight with it.
pub proof fn law_contained_is_wholly_shared(l: FolderSignature, r: FolderSignature)
    requires
        l.wf(),
        forall|t: Seq<char>| #[trigger]
            l.tokens@.contains_key(t) ==> r.tokens@.contains_key(t) && l.tokens@[t]
                <= r.tokens@[t],
    ensures
        overlap(l, r) == l.total_weight,
{
    l.tokens.lemma_entries();
    let n = l.tokens.key_seq().len() as int;
    assert forall|i: int| 0 <= i < n implies r.tokens@.contains_key(
        #[trigger] l.tokens.key_seq()[i],
    ) && l.tokens.value_seq()[i] <= r.tokens@[l.tokens.key_seq()[i]] by {
        assert(l.tokens@.contains_key(l.tokens.key_seq()[i]));
    }
    lemma_wholly_shared(l.tokens, r.tokens@, n);
    assert(l.tokens.value_seq().take(n) =~= l.tokens.value_seq());
}

/// A match tells the weights of its two folders; its ratio sets what they share
/// against what they weigh together, the shared part counted once.
pub proof fn law_match_tells_its_ratio(
    m: DossierMatch,
    left: Seq<char>,
    l: FolderSignature,
    right: Seq<char>,
    r: FolderSignature,
)
    requires
        tells_of(m, left, l, right, r),
    ensures
        m.left_folder@ == left,
        m.right_folder@ == right,
        m.left_weight == l.total_weight,
        m.right_weight == r.total_weight,
        m.overlap_ratio.num == m.overlap_weight,
        m.overlap_ratio.den + m.overlap_weight == m.left_weight + m.right_weight,
{
}

/// Whether two folders both hold a token, and it has one of the labels.
pub open spec fn is_common(
    t: Seq<char>,
    r: FolderSignature,
    labels: Set<Seq<char>>,
) -> bool {
    r.tokens@.contains_key(t) && t.contains(':') && labels.contains(before_first(t, ':'))
}

/// The tokens of one folder that another holds too and that have one of the
/// labels.
pub open spec fn common_tokens(
    l: FolderSignature,
    r: FolderSignature,
    labels: Set<Seq<char>>,
) -> Seq<Seq<char>> {
    l.tokens.key_seq().filter(|t: Seq<char>| is_common(t, r, labels))
}

proof fn lemma_family_counts(
    l: TextMap<u128>,
    r: FolderSignature,
    n: int,
    family: DossierTokenFamily,
    labels: Set<Seq<char>>,
)
    requires
        0 <= n <= l.key_seq().len(),
        forall|t: Seq<char>| #[trigger]
            family_of(t) == family <==> t.contains(':') && labels.contains(before_first(t, ':')),
    ensures
        family_count(l, r.tokens@, n, family) == l.key_seq().take(n).filter(
            |t: Seq<char>| is_common(t, r, labels),
        ).len(),
    decreases n,
{
    reveal(Seq::filter);
    let keep = |t: Seq<char>| is_common(t, r, labels);
    if n > 0 {
        lemma_family_counts(l, r, n - 1, family, labels);
        assert(l.key_seq().take(n).drop_last() =~= l.key_seq().take(n - 1));
        assert(l.key_seq().take(n).last() == l.key_seq()[n - 1]);
        assert(family_of(l.key_seq()[n - 1]) == family <==> l.key_seq()[n - 1].contains(':')
            && labels.contains(before_first(l.key_seq()[n - 1], ':')));
        assert(keep(l.key_seq()[n - 1]) == is_common(l.key_seq()[n - 1], r, labels));
    } else {
        assert(l.key_seq().take(0).filter(keep).len() == 0);
    }
}

/// What stands before the first colon of the two tokens that tell whether a
/// file is binary.
proof fn lemma_binaryity_labels()
    ensures
        before_first("BIN:binary"@, ':') == "BIN"@,
        before_first("TEXT:text"@, ':') == "TEXT"@,
{
    reveal_strlit("BIN");
    reveal_strlit("TEXT");
    reveal_strlit("BIN:binary");
    reveal_strlit("TEXT:text");
    lemma_label("BIN"@, "BIN:binary"@.skip(4));
    assert("BIN"@ + seq![':'] + "BIN:binary"@.skip(4) =~= "BIN:binary"@);
    lemma_label("TEXT"@, "TEXT:text"@.skip(5));
    assert("TEXT"@ + seq![':'] + "TEXT:text"@.skip(5) =~= "TEXT:text"@);
}

proof fn lemma_lengths_of_labels()
    ensures
        "N"@.len() == 1,
        "NF"@.len() == 2,
        "S"@.len() == 1,
        "E"@.len() == 1,
        "ES"@.len() == 2,
        "H"@.len() == 1,
        "ARCH"@.len() == 4,
        "ARCHFAM"@.len() == 7,
        "ARCHSIG"@.len() == 7,
        "ARCHPAY"@.len() == 7,
        "ARCHVIRT"@.len() == 8,
        "ARCHMEM"@.len() == 7,
        "ARCHDEPTH"@.len() == 9,
        "LANG"@.len() == 4,
        "TEXTSIG"@.len() == 7,
        "SIZE"@.len() == 4,
        "SZB"@.len() == 3,
        "BINSIG"@.len() == 6,
        "NFP"@.len() == 3,
        "F"@.len() == 1,
        "FD"@.len() == 2,
        "FP"@.len() == 2,
        "BIN"@.len() == 3,
        "TEXT"@.len() == 4,
{
    reveal_strlit("N");
    reveal_strlit("NF");
    reveal_strlit("S");
    reveal_strlit("E");
    reveal_strlit("ES");
    reveal_strlit("H");
    reveal_strlit("ARCH");
    reveal_strlit("ARCHFAM");
    reveal_strlit("ARCHSIG");
    reveal_strlit("ARCHPAY");
    reveal_strlit("ARCHVIRT");
    reveal_strlit("ARCHMEM");
    reveal_strlit("ARCHDEPTH");
    reveal_strlit("LANG");
    reveal_strlit("TEXTSIG");
    reveal_strlit("SIZE");
    reveal_strlit("SZB");
    reveal_strlit("BINSIG");
    reveal_strlit("NFP");
    reveal_strlit("F");
    reveal_strlit("FD");
    reveal_strlit("FP");
    reveal_strlit("BIN");
    reveal_strlit("TEXT");
}

proof fn lemma_family_exact_file_name(t: Seq<char>)
    ensures
        family_of(t) == DossierTokenFamily::ExactFileName <==> t.contains(':')
            && set!["N"@].contains(before_first(t, ':')),
{
    lemma_binaryity_labels();
    lemma_lengths_of_labels();
    reveal_strlit("N");
    reveal_strlit("S");
    reveal_strlit("E");
    reveal_strlit("H");
    reveal_strlit("F");
    assert("N"@ != "S"@) by {
        assert("N"@[0] != "S"@[0]);
    }
    assert("N"@ != "E"@) by {
        assert("N"@[0] != "E"@[0]);
    }
    assert("N"@ != "H"@) by {
        assert("N"@[0] != "H"@[0]);
    }
    assert("N"@ != "F"@) by {
        assert("N"@[0] != "F"@[0]);
    }
}

proof fn lemma_family_normalized_file_name(t: Seq<char>)
    ensures
        family_of(t) == DossierTokenFamily::NormalizedFileName <==> t.contains(':')
            && set!["NF"@].contains(before_first(t, ':')),
{
    lemma_binaryity_labels();
    lemma_lengths_of_labels();
    reveal_strlit("NF");
    reveal_strlit("ES");
    reveal_strlit("FD");
    reveal_strlit("FP");
    assert("NF"@ != "ES"@) by {
        assert("NF"@[0] != "ES"@[0]);
    }
    assert("NF"@ != "FD"@) by {
        assert("NF"@[0] != "FD"@[0]);
    }
    assert("NF"@ != "FP"@) by {
        assert("NF"@[0] != "FP"@[0]);
    }
}

proof fn lemma_family_file_stem(t: Seq<char>)
    ensures
        family_of(t) == DossierTokenFamily::FileStem <==> t.contains(':')
            && set!["S"@].contains(before_first(t, ':')),
{
    lemma_binaryity_labels();
    lemma_lengths_of_labels();
    reveal_strlit("N");
    reveal_strlit("S");
    reveal_strlit("E");
    reveal_strlit("H");
    reveal_strlit("F");
    assert("S"@ != "N"@) by {
        assert("S"@[0] != "N"@[0]);
    }
    assert("S"@ != "E"@) by {
        assert("S"@[0] != "E"@[0]);
    }
    assert("S"@ != "H"@) by {
        assert("S"@[0] != "H"@[0]);
    }
    assert("S"@ != "F"@) by {
        assert("S"@[0] != "F"@[0]);
    }
}

proof fn lemma_family_file_ext(t: Seq<char>)
    ensures
        family_of(t) == DossierTokenFamily::FileExtension <==> t.contains(':')
            && set!["E"@].contains(before_first(t, ':')),
{
    lemma_binaryity_labels();
    lemma_lengths_of_labels();
    reveal_strlit("N");
    reveal_strlit("S");
    reveal_strlit("E");
    reveal_strlit("H");
    reveal_strlit("F");
    assert("E"@ != "N"@) by {
        assert("E"@[0] != "N"@[0]);
    }
    assert("E"@ != "S"@) by {
        assert("E"@[0] != "S"@[0]);
    }
    assert("E"@ != "H"@) by {
        assert("E"@[0] != "H"@[0]);
    }
    assert("E"@ != "F"@) by {
        assert("E"@[0] != "F"@[0]);
    }
}

proof fn lemma_family_ext_stem(t: Seq<char>)
    ensures
        family_of(t) == DossierTokenFamily::ExtensionStem <==> t.contains(':')
            && set!["ES"@].contains(before_first(t, ':')),
{
    lemma_binaryity_labels();
    lemma_lengths_of_labels();
    reveal_strlit("NF");
    reveal_strlit("ES");
    reveal_strlit("FD");
    reveal_strlit("FP");
    assert("ES"@ != "NF"@) by {
        assert("ES"@[0] != "NF"@[0]);
    }
    assert("ES"@ != "FD"@) by {
        assert("ES"@[0] != "FD"@[0]);
    }
    assert("ES"@ != "FP"@) by {
        assert("ES"@[0] != "FP"@[0]);
    }
}

proof fn lemma_family_hash(t: Seq<char>)
    ensures
        family_of(t) == DossierTokenFamily::Hash <==> t.contains(':')
            && set!["H"@].contains(before_first(t, ':')),
{
    lemma_binaryity_labels();
    lemma_lengths_of_labels();
    reveal_strlit("N");
    reveal_strlit("S");
    reveal_strlit("E");
    reveal_strlit("H");
    reveal_strlit("F");
    assert("H"@ != "N"@) by {
        assert("H"@[0] != "N"@[0]);
    }
    assert("H"@ != "S"@) by {
        assert("H"@[0] != "S"@[0]);
    }
    assert("H"@ != "E"@) by {
        assert("H"@[0] != "E"@[0]);
    }
    assert("H"@ != "F"@) by {
        assert("H"@[0] != "F"@[0]);
    }
}

proof fn lemma_family_normalized_parent_folder(t: Seq<char>)
    ensures
        family_of(t) == DossierTokenFamily::NormalizedFolder <==> t.contains(':')
            && set!["NFP"@].contains(before_first(t, ':')),
{
    lemma_binaryity_labels();
    lemma_lengths_of_labels();
    reveal_strlit("SZB");
    reveal_strlit("NFP");
    reveal_strlit("BIN");
    assert("NFP"@ != "SZB"@) by {
        assert("NFP"@[0] != "SZB"@[0]);
    }
    assert("NFP"@ != "BIN"@) by {
        assert("NFP"@[0] != "BIN"@[0]);
    }
}

proof fn lemma_family_archive_family(t: Seq<char>)
    ensures
        family_of(t) == DossierTokenFamily::ArchiveFamily <==> t.contains(':')
            && set!["ARCH"@, "ARCHFAM"@].contains(before_first(t, ':')),
{
    lemma_binaryity_labels();
    lemma_lengths_of_labels();
    reveal_strlit("ARCH");
    reveal_strlit("ARCHFAM");
    reveal_strlit("ARCHSIG");
    reveal_strlit("ARCHPAY");
    reveal_strlit("ARCHMEM");
    reveal_strlit("LANG");
    reveal_strlit("TEXTSIG");
    reveal_strlit("SIZE");
    reveal_strlit("TEXT");
    assert("ARCH"@ != "LANG"@) by {
        assert("ARCH"@[0] != "LANG"@[0]);
    }
    assert("ARCH"@ != "SIZE"@) by {
        assert("ARCH"@[0] != "SIZE"@[0]);
    }
    assert("ARCH"@ != "TEXT"@) by {
        assert("ARCH"@[0] != "TEXT"@[0]);
    }
    assert("ARCHFAM"@ != "ARCHSIG"@) by {
        assert("ARCHFAM"@[4] != "ARCHSIG"@[4]);
    }
    assert("ARCHFAM"@ != "ARCHPAY"@) by {
        assert("ARCHFAM"@[4] != "ARCHPAY"@[4]);
    }
    assert("ARCHFAM"@ != "ARCHMEM"@) by {
        assert("ARCHFAM"@[4] != "ARCHMEM"@[4]);
    }
    assert("ARCHFAM"@ != "TEXTSIG"@) by {
        assert("ARCHFAM"@[0] != "TEXTSIG"@[0]);
    }
}

proof fn lemma_family_language(t: Seq<char>)
    ensures
        family_of(t) == DossierTokenFamily::Language <==> t.contains(':')
            && set!["LANG"@, "TEXTSIG"@].contains(before_first(t, ':')),
{
    lemma_binaryity_labels();
    lemma_lengths_of_labels();
    reveal_strlit("ARCH");
    reveal_strlit("ARCHFAM");
    reveal_strlit("ARCHSIG");
    reveal_strlit("ARCHPAY");
    reveal_strlit("ARCHMEM");
    reveal_strlit("LANG");
    reveal_strlit("TEXTSIG");
    reveal_strlit("SIZE");
    reveal_strlit("TEXT");
    assert("LANG"@ != "ARCH"@) by {
        assert("LANG"@[0] != "ARCH"@[0]);
    }
    assert("LANG"@ != "SIZE"@) by {
        assert("LANG"@[0] != "SIZE"@[0]);
    }
    assert("LANG"@ != "TEXT"@) by {
        assert("LANG"@[0] != "TEXT"@[0]);
    }
    assert("TEXTSIG"@ != "ARCHFAM"@) by {
        assert("TEXTSIG"@[0] != "ARCHFAM"@[0]);
    }
    assert("TEXTSIG"@ != "ARCHSIG"@) by {
        assert("TEXTSIG"@[0] != "ARCHSIG"@[0]);
    }
    assert("TEXTSIG"@ != "ARCHPAY"@) by {
        assert("TEXTSIG"@[0] != "ARCHPAY"@[0]);
    }
    assert("TEXTSIG"@ != "ARCHMEM"@) by {
        assert("TEXTSIG"@[0] != "ARCHMEM"@[0]);
    }
}

proof fn lemma_family_size_class(t: Seq<char>)
    ensures
        family_of(t) == DossierTokenFamily::SizeClass <==> t.contains(':')
            && set!["SIZE"@, "SZB"@].contains(before_first(t, ':')),
{
    lemma_binaryity_labels();
    lemma_lengths_of_labels();
    reveal_strlit("ARCH");
    reveal_strlit("LANG");
    reveal_strlit("SIZE");
    reveal_strlit("SZB");
    reveal_strlit("NFP");
    reveal_strlit("BIN");
    reveal_strlit("TEXT");
    assert("SIZE"@ != "ARCH"@) by {
        assert("SIZE"@[0] != "ARCH"@[0]);
    }
    assert("SIZE"@ != "LANG"@) by {
        assert("SIZE"@[0] != "LANG"@[0]);
    }
    assert("SIZE"@ != "TEXT"@) by {
        assert("SIZE"@[0] != "TEXT"@[0]);
    }
    assert("SZB"@ != "NFP"@) by {
        assert("SZB"@[0] != "NFP"@[0]);
    }
    assert("SZB"@ != "BIN"@) by {
        assert("SZB"@[0] != "BIN"@[0]);
    }
}

proof fn lemma_family_folder_token(t: Seq<char>)
    ensures
        family_of(t) == DossierTokenFamily::Folder <==> t.contains(':')
            && set!["F"@, "FD"@, "FP"@].contains(before_first(t, ':')),
{
    lemma_binaryity_labels();
    lemma_lengths_of_labels();
    reveal_strlit("N");
    reveal_strlit("NF");
    reveal_strlit("S");
    reveal_strlit("E");
    reveal_strlit("ES");
    reveal_strlit("H");
    reveal_strlit("F");
    reveal_strlit("FD");
    reveal_strlit("FP");
    assert("F"@ != "N"@) by {
        assert("F"@[0] != "N"@[0]);
    }
    assert("F"@ != "S"@) by {
        assert("F"@[0] != "S"@[0]);
    }
    assert("F"@ != "E"@) by {
        assert("F"@[0] != "E"@[0]);
    }
    assert("F"@ != "H"@) by {
        assert("F"@[0] != "H"@[0]);
    }
    assert("FD"@ != "NF"@) by {
        assert("FD"@[0] != "NF"@[0]);
    }
    assert("FD"@ != "ES"@) by {
        assert("FD"@[0] != "ES"@[0]);
    }
    assert("FP"@ != "NF"@) by {
        assert("FP"@[0] != "NF"@[0]);
    }
    assert("FP"@ != "ES"@) by {
        assert("FP"@[0] != "ES"@[0]);
    }
}

/// A match counts the tokens that its two folders both hold, by what they
/// speak of: names, stems, extensions, hashes, languages, sizes, archives and
/// folders.
pub proof fn law_match_counts_what_is_common(
    m: DossierMatch,
    left: Seq<char>,
    l: FolderSignature,
    right: Seq<char>,
    r: FolderSignature,
)
    requires
        tells_of(m, left, l, right, r),
    ensures
        m.shared_rel_file_count == m.shared_exact_file_name_count,
        m.shared_exact_file_name_count == common_tokens(l, r, set!["N"@]).len(),
        m.shared_normalized_file_name_count == common_tokens(l, r, set!["NF"@]).len(),
        m.shared_file_stem_count == common_tokens(l, r, set!["S"@]).len(),
        m.shared_file_ext_count == common_tokens(l, r, set!["E"@]).len(),
        m.shared_ext_stem_count == common_tokens(l, r, set!["ES"@]).len(),
        m.shared_hash_count == common_tokens(l, r, set!["H"@]).len(),
        m.shared_normalized_parent_folder_count == common_tokens(l, r, set!["NFP"@]).len(),
        m.shared_archive_family_count == common_tokens(l, r, set!["ARCH"@, "ARCHFAM"@]).len(),
        m.shared_language_count == common_tokens(l, r, set!["LANG"@, "TEXTSIG"@]).len(),
        m.shared_size_class_count == common_tokens(l, r, set!["SIZE"@, "SZB"@]).len(),
        m.shared_folder_token_count == common_tokens(l, r, set!["F"@, "FD"@, "FP"@]).len(),
{
    let n = l.tokens.key_seq().len() as int;
    assert(l.tokens.key_seq().take(n) =~= l.tokens.key_seq());
    assert forall|t: Seq<char>| #[trigger]
        family_of(t) == DossierTokenFamily::ExactFileName <==> t.contains(':')
            && set!["N"@].contains(before_first(t, ':')) by {
        lemma_family_exact_file_name(t);
    }
    lemma_family_counts(
        l.tokens,
        r,
        n,
        DossierTokenFamily::ExactFileName,
        set!["N"@],
    );
    assert forall|t: Seq<char>| #[trigger]
        family_of(t) == DossierTokenFamily::NormalizedFileName <==> t.contains(':')
            && set!["NF"@].contains(before_first(t, ':')) by {
        lemma_family_normalized_file_name(t);
    }
    lemma_family_counts(
        l.tokens,
        r,
        n,
        DossierTokenFamily::NormalizedFileName,
        set!["NF"@],
    );
    assert forall|t: Seq<char>| #[trigger]
        family_of(t) == DossierTokenFamily::FileStem <==> t.contains(':')
            && set!["S"@].contains(before_first(t, ':')) by {
        lemma_family_file_stem(t);
    }
    lemma_family_counts(
        l.tokens,
        r,
        n,
        DossierTokenFamily::FileStem,
        set!["S"@],
    );
    assert forall|t: Seq<char>| #[trigger]
        family_of(t) == DossierTokenFamily::FileExtension <==> t.contains(':')
            && set!["E"@].contains(before_first(t, ':')) by {
        lemma_family_file_ext(t);
    }
    lemma_family_counts(
        l.tokens,
        r,
        n,
        DossierTokenFamily::FileExtension,
        set!["E"@],
    );
    assert forall|t: Seq<char>| #[trigger]
        family_of(t) == DossierTokenFamily::ExtensionStem <==> t.contains(':')
            && set!["ES"@].contains(before_first(t, ':')) by {
        lemma_family_ext_stem(t);
    }
    lemma_family_counts(
        l.tokens,
        r,
        n,
        DossierTokenFamily::ExtensionStem,
        set!["ES"@],
    );
    assert forall|t: Seq<char>| #[trigger]
        family_of(t) == DossierTokenFamily::Hash <==> t.contains(':')
            && set!["H"@].contains(before_first(t, ':')) by {
        lemma_family_hash(t);
    }
    lemma_family_counts(
        l.tokens,
        r,
        n,
        DossierTokenFamily::Hash,
        set!["H"@],
    );
    assert forall|t: Seq<char>| #[trigger]
        family_of(t) == DossierTokenFamily::NormalizedFolder <==> t.contains(':')
            && set!["NFP"@].contains(before_first(t, ':')) by {
        lemma_family_normalized_parent_folder(t);
    }
    lemma_family_counts(
        l.tokens,
        r,
        n,
        DossierTokenFamily::NormalizedFolder,
        set!["NFP"@],
    );
    assert forall|t: Seq<char>| #[trigger]
        family_of(t) == DossierTokenFamily::ArchiveFamily <==> t.contains(':')
            && set!["ARCH"@, "ARCHFAM"@].contains(before_first(t, ':')) by {
        lemma_family_archive_family(t);
    }
    lemma_family_counts(
        l.tokens,
        r,
        n,
        DossierTokenFamily::ArchiveFamily,
        set!["ARCH"@, "ARCHFAM"@],
    );
    assert forall|t: Seq<char>| #[trigger]
        family_of(t) == DossierTokenFamily::Language <==> t.contains(':')
            && set!["LANG"@, "TEXTSIG"@].contains(before_first(t, ':')) by {
        lemma_family_language(t);
    }
    lemma_family_counts(
        l.tokens,
        r,
        n,
        DossierTokenFamily::Language,
        set!["LANG"@, "TEXTSIG"@],
    );
    assert forall|t: Seq<char>| #[trigger]
        family_of(t) == DossierTokenFamily::SizeClass <==> t.contains(':')
            && set!["SIZE"@, "SZB"@].contains(before_first(t, ':')) by {
        lemma_family_size_class(t);
    }
    lemma_family_counts(
        l.tokens,
        r,
        n,
        DossierTokenFamily::SizeClass,
        set!["SIZE"@, "SZB"@],
    );
    assert forall|t: Seq<char>| #[trigger]
        family_of(t) == DossierTokenFamily::Folder <==> t.contains(':')
            && set!["F"@, "FD"@, "FP"@].contains(before_first(t, ':')) by {
        lemma_family_folder_token(t);
    }
    lemma_family_counts(
        l.tokens,
        r,
        n,
        DossierTokenFamily::Folder,
        set!["F"@, "FD"@, "FP"@],
    );
}

} // verus!
