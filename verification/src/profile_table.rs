//! The table of profiles, in an index that may have been written before all of
//! its columns were there.

use crate::filter::{lemma_filter_start, lemma_filter_step};
use crate::fingerprint::{FileFingerprintProfile, Profile};
use crate::text::{any_same, copy_opt, from_chars, opt_text, texts, to_chars};
use vstd::prelude::*;

verus! {

/// The columns that were added to the table, in the order in which they were.
pub open spec fn added_columns() -> Seq<Seq<char>> {
    seq![
        "language"@,
        "size_class"@,
        "binary_signature"@,
        "binary_descriptor"@,
        "text_signature"@,
        "archive_signature"@,
    ]
}

/// The columns that a table lacks.
pub open spec fn lacking(columns: Seq<Seq<char>>) -> Seq<Seq<char>> {
    added_columns().filter(|c: Seq<char>| !columns.contains(c))
}

/// The columns that a table lacks.
pub fn missing_columns(columns: &Vec<String>) -> (r: Vec<String>)
    ensures
        texts(r@) == lacking(texts(columns@)),
{
    let names: Vec<&str> = vec![
        "language",
        "size_class",
        "binary_signature",
        "binary_descriptor",
        "text_signature",
        "archive_signature",
    ];
    let ghost keep = |c: Seq<char>| !texts(columns@).contains(c);
    let ghost all = added_columns();
    let mut r: Vec<String> = Vec::new();
    let mut i: usize = 0;
    proof {
        lemma_filter_start(all, keep);
        assert(texts(r@) =~= Seq::empty());
    }
    while i < names.len()
        invariant
            i <= names@.len(),
            names@.len() == 6,
            all == added_columns(),
            forall|k: int| 0 <= k < 6 ==> (#[trigger] names@[k])@ == all[k],
            keep == (|c: Seq<char>| !texts(columns@).contains(c)),
            texts(r@) == all.take(i as int).filter(keep),
        decreases names@.len() - i,
    {
        let ghost before = texts(r@);
        proof {
            lemma_filter_step(all, keep, i as int);
        }
        if !any_same(columns, names[i]) {
            r.push(from_chars(&to_chars(names[i])));
            assert(texts(r@) =~= before.push(all[i as int]));
        }
        i = i + 1;
    }
    assert(all.take(i as int) =~= all);
    r
}

/// What the columns of a table tell of a profile.
#[derive(Clone, Copy, Debug, PartialEq, Eq, Structural)]
pub enum ProfileLayout {
    /// Everything.
    Full,
    /// Everything but the descriptor.
    WithoutDescriptor,
    /// No signatures and no descriptor.
    WithoutSignatures,
    /// Neither the language nor the size either.
    Bare,
}

pub open spec fn layout_of(columns: Seq<Seq<char>>) -> ProfileLayout {
    let classes = columns.contains("language"@) && columns.contains("size_class"@);
    let signatures = columns.contains("binary_signature"@) && columns.contains("text_signature"@)
        && columns.contains("archive_signature"@);
    if classes && signatures && columns.contains("binary_descriptor"@) {
        ProfileLayout::Full
    } else if classes && signatures {
        ProfileLayout::WithoutDescriptor
    } else if classes {
        ProfileLayout::WithoutSignatures
    } else {
        ProfileLayout::Bare
    }
}

/// What the columns of a table tell of a profile.
pub fn profile_layout(columns: &Vec<String>) -> (r: ProfileLayout)
    ensures
        r == layout_of(texts(columns@)),
{
    let classes = any_same(columns, "language") && any_same(columns, "size_class");
    let signatures = any_same(columns, "binary_signature") && any_same(columns, "text_signature")
        && any_same(columns, "archive_signature");
    if classes && signatures && any_same(columns, "binary_descriptor") {
        ProfileLayout::Full
    } else if classes && signatures {
        ProfileLayout::WithoutDescriptor
    } else if classes {
        ProfileLayout::WithoutSignatures
    } else {
        ProfileLayout::Bare
    }
}

/// A row of the table. Columns that are not there hold nothing.
#[derive(Debug)]
pub struct StoredProfile {
    pub normalized_name: String,
    pub normalized_folder: String,
    pub ext: Option<String>,
    pub is_binary: i64,
    pub is_archive: i64,
    pub archive_family: Option<String>,
    pub language: Option<String>,
    pub size_class: Option<String>,
    pub binary_signature: Option<String>,
    pub binary_descriptor: Option<String>,
    pub text_signature: Option<String>,
    pub archive_signature: Option<String>,
}

pub open spec fn text_or(s: Option<String>, other: Seq<char>) -> Seq<char> {
    match s {
        Some(s) => s@,
        None => other,
    }
}

/// The profile of a row: files of an unknown language count as such, and files
/// of an unknown size as large.
pub open spec fn stored_profile(s: StoredProfile, layout: ProfileLayout) -> Profile {
    let classes = layout != ProfileLayout::Bare;
    let signatures = layout == ProfileLayout::Full || layout == ProfileLayout::WithoutDescriptor;
    Profile {
        normalized_name: s.normalized_name@,
        normalized_folder: s.normalized_folder@,
        ext: text_or(s.ext, Seq::empty()),
        is_binary: s.is_binary != 0,
        is_archive: s.is_archive != 0,
        archive_family: opt_text(s.archive_family),
        language: if classes {
            text_or(s.language, "unknown"@)
        } else {
            "unknown"@
        },
        size_class: if classes {
            text_or(s.size_class, "large"@)
        } else {
            "large"@
        },
        binary_signature: if signatures {
            opt_text(s.binary_signature)
        } else {
            None
        },
        binary_descriptor: if layout == ProfileLayout::Full {
            opt_text(s.binary_descriptor)
        } else {
            None
        },
        text_signature: if signatures {
            opt_text(s.text_signature)
        } else {
            None
        },
        archive_signature: if signatures {
            opt_text(s.archive_signature)
        } else {
            None
        },
    }
}

fn take_or(s: &Option<String>, other: &str) -> (r: String)
    ensures
        r@ == text_or(*s, other@),
{
    match s {
        Some(s) => s.clone(),
        None => from_chars(&to_chars(other)),
    }
}

fn take_if(b: bool, s: &Option<String>) -> (r: Option<String>)
    ensures
        opt_text(r) == if b {
            opt_text(*s)
        } else {
            None
        },
{
    if b {
        copy_opt(s)
    } else {
        None
    }
}

/// The profile of a row.
pub fn read_profile(s: &StoredProfile, layout: ProfileLayout) -> (r: FileFingerprintProfile)
    ensures
        r@ == stored_profile(*s, layout),
{
    let classes = layout != ProfileLayout::Bare;
    let signatures = layout == ProfileLayout::Full || layout == ProfileLayout::WithoutDescriptor;
    proof {
        reveal_strlit("");
        assert(""@ =~= Seq::empty());
    }
    FileFingerprintProfile {
        normalized_name: s.normalized_name.clone(),
        normalized_folder: s.normalized_folder.clone(),
        ext: take_or(&s.ext, ""),
        is_binary: s.is_binary != 0,
        is_archive: s.is_archive != 0,
        archive_family: copy_opt(&s.archive_family),
        language: if classes {
            take_or(&s.language, "unknown")
        } else {
            from_chars(&to_chars("unknown"))
        },
        size_class: if classes {
            take_or(&s.size_class, "large")
        } else {
            from_chars(&to_chars("large"))
        },
        binary_signature: take_if(signatures, &s.binary_signature),
        binary_descriptor: take_if(layout == ProfileLayout::Full, &s.binary_descriptor),
        text_signature: take_if(signatures, &s.text_signature),
        archive_signature: take_if(signatures, &s.archive_signature),
    }
}

/// A table that lacks no column tells everything.
pub proof fn law_complete_table_is_full(columns: Seq<Seq<char>>)
    requires
        lacking(columns).len() == 0,
    ensures
        layout_of(columns) == ProfileLayout::Full,
{
    let keep = |c: Seq<char>| !columns.contains(c);
    let all = added_columns();
    assert forall|i: int| 0 <= i < 6 implies columns.contains(#[trigger] all[i]) by {
        if !columns.contains(all[i]) {
            all.lemma_filter_contains(keep, i);
            assert(lacking(columns).contains(all[i]));
        }
    }
    assert(columns.contains(all[0]));
    assert(columns.contains(all[1]));
    assert(columns.contains(all[2]));
    assert(columns.contains(all[3]));
    assert(columns.contains(all[4]));
    assert(columns.contains(all[5]));
}

} // verus!
