//! Fingerprints of files: what a file's name, place, size and hash say of it
//! when names have drifted.

use crate::archive::{
    archive_family_of, archive_payload_root_from_family, archive_stem, build_archive_stem,
    infer_archive_family, payload_root,
};
use crate::filter::{lemma_filter_start, lemma_filter_step};
use crate::path::{
    extension, file_name, file_stem, parent, path_extension, path_file_name, path_parent,
    path_stem,
};
use crate::text::{
    all_digits, ascii_lower, byte_len, char_texts, chars_same, contains_text, copy_chars,
    digits_between, ends_with, extend, extend_str, find_text, from_chars, has_prefix, has_suffix,
    join, joined, last_char_at, longer_than, stands_at, opt_str, opt_text, pieces, replace_char,
    replaced, rfind_char, same, slice, split, split_words, starts_with, str_to_lowercase, strip,
    stripped, to_ascii_lower, to_chars, trim_start, trimmed_start, unicode_lower, words, CharClass,
};
use vstd::prelude::*;

verus! {

/// The characters of a part of a descriptor, at most.
pub const DESCRIPTOR_MAX_COMPONENT_LEN: usize = 48;

/// The characters of a descriptor, at most.
pub const DESCRIPTOR_MAX_COMPOSITE_LEN: usize = 192;

/// The bytes of a token that says something, at least.
pub const DESCRIPTOR_MIN_TOKEN_LEN: usize = 2;

/// The bytes of a key, at most.
pub const DESCRIPTOR_MAX_KEY_TOKEN_LEN: usize = 32;

/// What is known of a file without its exact name.
#[derive(Debug)]
pub struct FileFingerprintProfile {
    pub normalized_name: String,
    pub normalized_folder: String,
    pub ext: String,
    pub is_binary: bool,
    pub is_archive: bool,
    pub archive_family: Option<String>,
    pub language: String,
    pub size_class: String,
    pub binary_signature: Option<String>,
    pub binary_descriptor: Option<String>,
    pub text_signature: Option<String>,
    pub archive_signature: Option<String>,
}

/// A profile as a value of specifications.
pub struct Profile {
    pub normalized_name: Seq<char>,
    pub normalized_folder: Seq<char>,
    pub ext: Seq<char>,
    pub is_binary: bool,
    pub is_archive: bool,
    pub archive_family: Option<Seq<char>>,
    pub language: Seq<char>,
    pub size_class: Seq<char>,
    pub binary_signature: Option<Seq<char>>,
    pub binary_descriptor: Option<Seq<char>>,
    pub text_signature: Option<Seq<char>>,
    pub archive_signature: Option<Seq<char>>,
}

impl FileFingerprintProfile {
    pub open spec fn view(&self) -> Profile {
        Profile {
            normalized_name: self.normalized_name@,
            normalized_folder: self.normalized_folder@,
            ext: self.ext@,
            is_binary: self.is_binary,
            is_archive: self.is_archive,
            archive_family: opt_text(self.archive_family),
            language: self.language@,
            size_class: self.size_class@,
            binary_signature: opt_text(self.binary_signature),
            binary_descriptor: opt_text(self.binary_descriptor),
            text_signature: opt_text(self.text_signature),
            archive_signature: opt_text(self.archive_signature),
        }
    }
}

// ---------------------------------------------------------------------------
// Noise
// ---------------------------------------------------------------------------

/// Whether a text is a prefix followed by digits, at least one.
pub open spec fn numbered(s: Seq<char>, prefix: Seq<char>) -> bool {
    starts_with(s, prefix) && s.len() > prefix.len() && all_digits(s.skip(prefix.len() as int))
}

/// Whether a character separates the parts of a date.
pub open spec fn is_date_mark(c: char) -> bool {
    c == '-' || c == '_' || c == '.'
}

/// Whether a text is a date of the form `2024-01-31`.
pub open spec fn is_date(s: Seq<char>) -> bool {
    &&& s.len() == 10
    &&& is_date_mark(s[4])
    &&& is_date_mark(s[7])
    &&& all_digits(s.subrange(0, 4))
    &&& all_digits(s.subrange(5, 7))
    &&& all_digits(s.subrange(8, 10))
}

/// Whether a word of a name tells versions and copies apart, not contents.
pub open spec fn is_noise_word(token: Seq<char>) -> bool {
    let s = ascii_lower(stripped(token));
    ||| s.len() == 0
    ||| s == "final"@
    ||| s == "copy"@
    ||| s == "old"@
    ||| s == "clean"@
    ||| s == "backup"@
    ||| s == "version"@
    ||| numbered(s, "v"@)
    ||| numbered(s, "rev"@)
    ||| numbered(s, "r"@)
    ||| (s.len() > 3 && all_digits(s))
    ||| is_date(s)
}

fn is_numbered(s: &Vec<char>, prefix: &str) -> (r: bool)
    ensures
        r == numbered(s@, prefix@),
{
    let p = to_chars(prefix);
    if !has_prefix(s, prefix) || s.len() <= p.len() {
        return false;
    }
    assert(s@.subrange(p@.len() as int, s@.len() as int) =~= s@.skip(p@.len() as int));
    digits_between(s, p.len(), s.len())
}

fn date_mark(c: char) -> (r: bool)
    ensures
        r == is_date_mark(c),
{
    c == '-' || c == '_' || c == '.'
}

pub fn is_noise_fingerprint_token(token: &str) -> (r: bool)
    ensures
        r == is_noise_word(token@),
{
    let chars = to_chars(token);
    noise_chars(&chars)
}

fn noise_chars(chars: &Vec<char>) -> (r: bool)
    ensures
        r == is_noise_word(chars@),
{
    let t = strip(chars);
    let s = to_ascii_lower(&t);
    assert(s@.subrange(0, s@.len() as int) =~= s@);
    s.len() == 0 || chars_same(&s, "final") || chars_same(&s, "copy") || chars_same(&s, "old")
        || chars_same(&s, "clean") || chars_same(&s, "backup") || chars_same(&s, "version")
        || is_numbered(&s, "v") || is_numbered(&s, "rev") || is_numbered(&s, "r") || (s.len() > 3
        && digits_between(&s, 0, s.len())) || (s.len() == 10 && date_mark(s[4]) && date_mark(s[7])
        && digits_between(&s, 0, 4) && digits_between(&s, 5, 7) && digits_between(&s, 8, 10))
}

/// The words before the noise at the end.
pub open spec fn without_noise(tokens: Seq<Seq<char>>) -> Seq<Seq<char>>
    decreases tokens.len(),
{
    if tokens.len() > 0 && is_noise_word(tokens.last()) {
        without_noise(tokens.drop_last())
    } else {
        tokens
    }
}

fn drop_noise(tokens: Vec<Vec<char>>) -> (r: Vec<Vec<char>>)
    ensures
        char_texts(r@) == without_noise(char_texts(tokens@)),
{
    let mut kept = tokens;
    let ghost goal = without_noise(char_texts(kept@));
    while kept.len() > 0 && noise_chars(&kept[kept.len() - 1])
        invariant
            goal == without_noise(char_texts(kept@)),
        decreases kept@.len(),
    {
        let ghost before = char_texts(kept@);
        assert(before.last() == kept@[kept@.len() - 1]@);
        kept.pop();
        assert(char_texts(kept@) =~= before.drop_last());
    }
    proof {
        let all = char_texts(kept@);
        assert(all.len() == kept@.len());
        if all.len() > 0 {
            assert(all.last() == kept@[kept@.len() - 1]@);
        }
    }
    kept
}

// ---------------------------------------------------------------------------
// Names
// ---------------------------------------------------------------------------

/// The words of a text in lower case, without the noise at the end.
pub open spec fn token_text(value: Seq<char>) -> Seq<char> {
    joined(without_noise(words(ascii_lower(value), CharClass::NotAlphanumeric)), seq![' '])
}

fn normalize_token(value: &Vec<char>) -> (r: Vec<char>)
    ensures
        r@ == token_text(value@),
{
    let low = to_ascii_lower(value);
    let parts = split_words(&low, &CharClass::NotAlphanumeric);
    let kept = drop_noise(parts);
    proof {
        reveal_strlit(" ");
        assert(" "@ =~= seq![' ']);
    }
    join(&kept, " ")
}

/// A file name without what changes when it is copied or revised.
pub open spec fn normal_name(name: Seq<char>) -> Seq<char> {
    let stem = match path_stem(name) {
        Some(stem) => stem,
        None => name,
    };
    let text = token_text(stem);
    let tokens = without_noise(
        words(text, CharClass::NotAlphanumeric).map_values(|w: Seq<char>| token_text(w)),
    );
    if text.len() == 0 || tokens.len() == 0 {
        "unnamed"@
    } else {
        joined(tokens, seq!['_'])
    }
}

fn normalize_name(name: &str) -> (r: Vec<char>)
    ensures
        r@ == normal_name(name@),
{
    let stem = match file_stem(name) {
        Some(stem) => stem,
        None => to_chars(name),
    };
    let text = normalize_token(&stem);
    if text.len() == 0 {
        return to_chars("unnamed");
    }
    let parts = split_words(&text, &CharClass::NotAlphanumeric);
    let ghost want = char_texts(parts@).map_values(|w: Seq<char>| token_text(w));
    let mut tokens: Vec<Vec<char>> = Vec::new();
    let mut i: usize = 0;
    while i < parts.len()
        invariant
            i <= parts@.len(),
            want == char_texts(parts@).map_values(|w: Seq<char>| token_text(w)),
            char_texts(tokens@) =~= want.take(i as int),
        decreases parts@.len() - i,
    {
        let ghost before = char_texts(tokens@);
        let token = normalize_token(&parts[i]);
        let ghost t = token@;
        tokens.push(token);
        proof {
            assert(want[i as int] == t);
            assert(char_texts(tokens@) =~= before.push(t));
            assert(want.take(i as int + 1) =~= want.take(i as int).push(t));
        }
        i = i + 1;
    }
    assert(want.take(i as int) =~= want);
    let kept = drop_noise(tokens);
    assert(char_texts(kept@).len() == kept@.len());
    if kept.len() == 0 {
        return to_chars("unnamed");
    }
    proof {
        reveal_strlit("_");
        assert("_"@ =~= seq!['_']);
    }
    join(&kept, "_")
}

pub fn normalize_fingerprint_name(file_name: &str) -> (r: String)
    ensures
        r@ == normal_name(file_name@),
{
    let name = normalize_name(file_name);
    from_chars(&name)
}

/// The names of the directories of a path.
pub open spec fn normal_folder_names(rel_path: Seq<char>) -> Seq<Seq<char>> {
    match path_parent(rel_path) {
        Some(parts) => parts.map_values(|p: Seq<char>| normal_name(p)).filter(
            |p: Seq<char>| p.len() > 0,
        ),
        None => Seq::empty(),
    }
}

/// The directory of a path without what changes when it is copied or revised.
pub open spec fn normal_folder(rel_path: Seq<char>) -> Seq<char> {
    let names = normal_folder_names(rel_path);
    if names.len() == 0 {
        "."@
    } else {
        joined(names, seq!['/'])
    }
}

pub fn normalize_fingerprint_folder(rel_path: &str) -> (r: String)
    ensures
        r@ == normal_folder(rel_path@),
{
    let mut names: Vec<Vec<char>> = Vec::new();
    assert(char_texts(names@) =~= Seq::empty());
    match parent(rel_path) {
        Some(parts) => {
            let ghost all = char_texts(parts@).map_values(|p: Seq<char>| normal_name(p));
            let ghost keep = |p: Seq<char>| p.len() > 0;
            let mut i: usize = 0;
            proof {
                lemma_filter_start(all, keep);
            }
            while i < parts.len()
                invariant
                    i <= parts@.len(),
                    all == char_texts(parts@).map_values(|p: Seq<char>| normal_name(p)),
                    keep == (|p: Seq<char>| p.len() > 0),
                    char_texts(names@) == all.take(i as int).filter(keep),
                decreases parts@.len() - i,
            {
                let text = from_chars(&parts[i]);
                let name = normalize_name(text.as_str());
                proof {
                    assert(all[i as int] == name@);
                    lemma_filter_step(all, keep, i as int);
                }
                if name.len() > 0 {
                    let ghost before = char_texts(names@);
                    let ghost t = name@;
                    names.push(name);
                    assert(char_texts(names@) =~= before.push(t));
                }
                i = i + 1;
            }
            assert(all.take(i as int) =~= all);
        },
        None => {},
    }
    assert(char_texts(names@) == normal_folder_names(rel_path@));
    assert(char_texts(names@).len() == names@.len());
    if names.len() == 0 {
        return ".".to_owned();
    }
    let text = join(&names, "/");
    proof {
        reveal_strlit("/");
        assert("/"@ =~= seq!['/']);
    }
    from_chars(&text)
}

// ---------------------------------------------------------------------------
// Parts of descriptors
// ---------------------------------------------------------------------------

/// A text cut to a number of characters.
pub open spec fn clamped(s: Seq<char>, max: nat) -> Seq<char> {
    if s.len() <= max {
        s
    } else {
        s.take(max as int)
    }
}

pub(crate) fn clamp(s: &Vec<char>, max: usize) -> (r: Vec<char>)
    ensures
        r@ == clamped(s@, max as nat),
        r@.len() <= max,
{
    if s.len() <= max {
        copy_chars(s)
    } else {
        slice(s, 0, max)
    }
}

/// A name as a part of a descriptor; nothing where the name says nothing.
pub open spec fn component(value: Seq<char>) -> Seq<char> {
    let name = normal_name(value);
    if name.len() == 0 || name == "unnamed"@ {
        Seq::empty()
    } else {
        clamped(name, DESCRIPTOR_MAX_COMPONENT_LEN as nat)
    }
}

pub(crate) fn component_of(value: &Vec<char>) -> (r: Vec<char>)
    ensures
        r@ == component(value@),
{
    let text = from_chars(value);
    let name = normalize_name(text.as_str());
    if name.len() == 0 || chars_same(&name, "unnamed") {
        let none: Vec<char> = Vec::new();
        assert(none@ =~= Seq::empty());
        none
    } else {
        clamp(&name, DESCRIPTOR_MAX_COMPONENT_LEN)
    }
}

/// Whether a word says nothing of a file's meaning.
pub open spec fn is_low_signal(token: Seq<char>) -> bool {
    let t = stripped(token);
    ||| byte_len(t) < DESCRIPTOR_MIN_TOKEN_LEN
    ||| all_digits(t)
    ||| t == "tmp"@
    ||| t == "var"@
    ||| t == "key"@
    ||| t == "val"@
    ||| t == "cfg"@
    ||| t == "data"@
    ||| t == "test"@
    ||| t == "misc"@
    ||| t == "none"@
}

pub(crate) fn low_signal(token: &Vec<char>) -> (r: bool)
    ensures
        r == is_low_signal(token@),
{
    let t = strip(token);
    assert(t@.subrange(0, t@.len() as int) =~= t@);
    !longer_than(&t, DESCRIPTOR_MIN_TOKEN_LEN - 1) || digits_between(&t, 0, t.len()) || chars_same(
        &t,
        "tmp",
    ) || chars_same(&t, "var") || chars_same(&t, "key") || chars_same(&t, "val") || chars_same(
        &t,
        "cfg",
    ) || chars_same(&t, "data") || chars_same(&t, "test") || chars_same(&t, "misc") || chars_same(
        &t,
        "none",
    )
}

/// A text, or another where it is empty.
pub open spec fn or_else(s: Seq<char>, other: Seq<char>) -> Seq<char> {
    if s.len() == 0 {
        other
    } else {
        s
    }
}

fn otherwise(s: Vec<char>, other: &str) -> (r: Vec<char>)
    ensures
        r@ == or_else(s@, other@),
{
    if s.len() == 0 {
        to_chars(other)
    } else {
        s
    }
}

/// The kind of a binary: the root of its archive family, or its extension.
pub open spec fn binary_family(
    ext: Option<Seq<char>>,
    archive_family: Option<Seq<char>>,
) -> Seq<char> {
    let root = match archive_family {
        Some(family) => payload_root(family),
        None => None,
    };
    let value = match (root, ext) {
        (Some(r), _) => r,
        (None, Some(e)) => trimmed_start(e, CharClass::Is('.')),
        (None, None) => Seq::empty(),
    };
    or_else(
        if root is None && ext is None {
            Seq::empty()
        } else {
            component(value)
        },
        "raw"@,
    )
}

fn infer_binary_family(ext: Option<&str>, archive_family: Option<&str>) -> (r: Vec<char>)
    ensures
        r@ == binary_family(opt_str(ext), opt_str(archive_family)),
{
    let root = match archive_family {
        Some(family) => archive_payload_root_from_family(family),
        None => None,
    };
    let value = match root {
        Some(r) => {
            let chars = to_chars(r.as_str());
            component_of(&chars)
        },
        None => match ext {
            Some(e) => {
                let chars = to_chars(e);
                let plain = trim_start(&chars, &CharClass::Is('.'));
                component_of(&plain)
            },
            None => {
                let none: Vec<char> = Vec::new();
                assert(none@ =~= Seq::empty());
                none
            },
        },
    };
    otherwise(value, "raw")
}

/// The directory of a file, as a part of a descriptor.
pub open spec fn folder_hint(rel_path: Seq<char>) -> Seq<char> {
    let segments = pieces(replaced(rel_path, '\\', '/'), CharClass::Is('/'));
    or_else(
        if segments.len() < 2 {
            Seq::empty()
        } else {
            component(segments[segments.len() - 2])
        },
        "."@,
    )
}

/// The kind, the size and the directory of a binary.
pub open spec fn binary_signature_of(
    rel_path: Seq<char>,
    ext: Option<Seq<char>>,
    archive_family: Option<Seq<char>>,
    size_class: Seq<char>,
) -> Seq<char> {
    clamped(
        binary_family(ext, archive_family) + ":"@ + size_class + ":"@ + folder_hint(rel_path),
        DESCRIPTOR_MAX_COMPOSITE_LEN as nat,
    )
}

pub fn infer_binary_signature(
    rel_path: &str,
    ext: Option<&str>,
    archive_family: Option<&str>,
    size_class: &str,
) -> (r: String)
    ensures
        r@ == binary_signature_of(rel_path@, opt_str(ext), opt_str(archive_family), size_class@),
        r@.len() <= DESCRIPTOR_MAX_COMPOSITE_LEN,
{
    let mut text = infer_binary_family(ext, archive_family);
    let chars = to_chars(rel_path);
    let path = replace_char(&chars, '\\', '/');
    let segments = split(&path, &CharClass::Is('/'));
    assert(char_texts(segments@).len() == segments@.len());
    let hint = if segments.len() < 2 {
        let none: Vec<char> = Vec::new();
        assert(none@ =~= Seq::empty());
        none
    } else {
        let at: usize = segments.len() - 2;
        assert(char_texts(segments@)[at as int] == segments@[at as int]@);
        component_of(&segments[at])
    };
    let hint = otherwise(hint, ".");
    extend_str(&mut text, ":");
    extend_str(&mut text, size_class);
    extend_str(&mut text, ":");
    extend(&mut text, &hint);
    let short = clamp(&text, DESCRIPTOR_MAX_COMPOSITE_LEN);
    from_chars(&short)
}

/// The part of a path before its last slash.
pub open spec fn before_last_slash(path: Seq<char>) -> Seq<char> {
    if path.contains('/') {
        path.take(choose|i: int| last_char_at(path, '/', i))
    } else {
        Seq::empty()
    }
}

/// The last directory of a path that has a name.
pub open spec fn parent_tail(rel_path: Seq<char>) -> Seq<char> {
    let names = words(before_last_slash(replaced(rel_path, '\\', '/')), CharClass::Is('/'));
    or_else(
        if names.len() == 0 {
            Seq::empty()
        } else {
            component(names.last())
        },
        "."@,
    )
}

/// The start of a hash, where there is one.
pub open spec fn hash_hint(fast_hash: Option<Seq<char>>) -> Seq<char> {
    match fast_hash {
        Some(hash) => or_else(clamped(hash, 10), "nohash"@),
        None => "nohash"@,
    }
}

/// The kind, the size, the directory and the hash of a binary, and the
/// signature of samples of its content where there is one.
pub open spec fn binary_descriptor_of(
    rel_path: Seq<char>,
    ext: Option<Seq<char>>,
    archive_family: Option<Seq<char>>,
    size_class: Seq<char>,
    fast_hash: Option<Seq<char>>,
    sampled: Option<Seq<char>>,
) -> Seq<char> {
    let base = binary_family(ext, archive_family) + ":"@ + size_class + ":"@ + parent_tail(
        rel_path,
    ) + ":"@ + hash_hint(fast_hash);
    clamped(
        match sampled {
            Some(s) => if s.len() == 0 {
                base
            } else {
                base + ":s"@ + s
            },
            None => base,
        },
        DESCRIPTOR_MAX_COMPOSITE_LEN as nat,
    )
}

fn find_parent_tail(rel_path: &str) -> (r: Vec<char>)
    ensures
        r@ == parent_tail(rel_path@),
{
    let chars = to_chars(rel_path);
    let path = replace_char(&chars, '\\', '/');
    let before = match rfind_char(&path, '/') {
        Some(i) => {
            proof {
                assert(path@[i as int] == '/');
                let j = choose|j: int| last_char_at(path@, '/', j);
                assert(last_char_at(path@, '/', j));
                if i < j {
                    assert(path@[j] == '/');
                } else if j < i {
                    assert(path@[i as int] == '/');
                }
            }
            slice(&path, 0, i)
        },
        None => {
            let none: Vec<char> = Vec::new();
            assert(none@ =~= Seq::empty());
            none
        },
    };
    assert(before@ =~= before_last_slash(path@));
    let names = split_words(&before, &CharClass::Is('/'));
    assert(char_texts(names@).len() == names@.len());
    let tail = if names.len() == 0 {
        let none: Vec<char> = Vec::new();
        assert(none@ =~= Seq::empty());
        none
    } else {
        assert(char_texts(names@).last() == names@[names@.len() - 1]@);
        component_of(&names[names.len() - 1])
    };
    otherwise(tail, ".")
}

pub fn infer_binary_descriptor(
    rel_path: &str,
    ext: Option<&str>,
    archive_family: Option<&str>,
    size_class: &str,
    fast_hash: Option<&str>,
    sampled_signature: Option<&str>,
) -> (r: String)
    ensures
        r@ == binary_descriptor_of(
            rel_path@,
            opt_str(ext),
            opt_str(archive_family),
            size_class@,
            opt_str(fast_hash),
            opt_str(sampled_signature),
        ),
        r@.len() <= DESCRIPTOR_MAX_COMPOSITE_LEN,
{
    let mut text = infer_binary_family(ext, archive_family);
    let tail = find_parent_tail(rel_path);
    let hash = match fast_hash {
        Some(hash) => {
            let chars = to_chars(hash);
            let short = clamp(&chars, 10);
            otherwise(short, "nohash")
        },
        None => to_chars("nohash"),
    };
    extend_str(&mut text, ":");
    extend_str(&mut text, size_class);
    extend_str(&mut text, ":");
    extend(&mut text, &tail);
    extend_str(&mut text, ":");
    extend(&mut text, &hash);
    match sampled_signature {
        Some(s) => {
            if !s.is_empty() {
                extend_str(&mut text, ":s");
                extend_str(&mut text, s);
            }
        },
        None => {},
    }
    let short = clamp(&text, DESCRIPTOR_MAX_COMPOSITE_LEN);
    from_chars(&short)
}

/// The root of an archive's family and its stem, as far as they say something.
pub open spec fn payload_signature_of(
    rel_path: Seq<char>,
    archive_family: Seq<char>,
) -> Option<Seq<char>> {
    match payload_root(archive_family) {
        Some(root) => {
            let stem = component(archive_stem(rel_path));
            Some(
                clamped(
                    if stem.len() == 0 {
                        component(root)
                    } else {
                        component(root) + ":"@ + stem
                    },
                    DESCRIPTOR_MAX_COMPOSITE_LEN as nat,
                ),
            )
        },
        None => None,
    }
}

pub fn infer_archive_payload_signature(rel_path: &str, archive_family: &str) -> (r: Option<String>)
    ensures
        opt_text(r) == payload_signature_of(rel_path@, archive_family@),
        r is Some ==> r->0@.len() <= DESCRIPTOR_MAX_COMPOSITE_LEN,
{
    match archive_payload_root_from_family(archive_family) {
        Some(root) => {
            let root = to_chars(root.as_str());
            let mut text = component_of(&root);
            let stem = build_archive_stem(rel_path);
            let stem = to_chars(stem.as_str());
            let stem = component_of(&stem);
            if stem.len() > 0 {
                extend_str(&mut text, ":");
                extend(&mut text, &stem);
            }
            let short = clamp(&text, DESCRIPTOR_MAX_COMPOSITE_LEN);
            Some(from_chars(&short))
        },
        None => None,
    }
}

// ---------------------------------------------------------------------------
// Classes
// ---------------------------------------------------------------------------

/// The class of a size.
pub open spec fn size_class_of(size: u64) -> Seq<char> {
    if size == 0 {
        "0b"@
    } else if size <= 4 * 1024 {
        "small"@
    } else if size <= 1024 * 1024 {
        "1m"@
    } else if size <= 10 * 1024 * 1024 {
        "10m"@
    } else if size <= 100 * 1024 * 1024 {
        "100m"@
    } else if size <= 1024 * 1024 * 1024 {
        "1g"@
    } else {
        "large"@
    }
}

pub fn infer_size_class(size: u64) -> (r: String)
    ensures
        r@ == size_class_of(size),
{
    if size == 0 {
        "0b".to_owned()
    } else if size <= 4 * 1024 {
        "small".to_owned()
    } else if size <= 1024 * 1024 {
        "1m".to_owned()
    } else if size <= 10 * 1024 * 1024 {
        "10m".to_owned()
    } else if size <= 100 * 1024 * 1024 {
        "100m".to_owned()
    } else if size <= 1024 * 1024 * 1024 {
        "1g".to_owned()
    } else {
        "large".to_owned()
    }
}

/// Whether an extension is one of binaries.
pub open spec fn binary_extension(ext: Seq<char>) -> bool {
    ||| ext == "7z"@
    ||| ext == "apk"@
    ||| ext == "bin"@
    ||| ext == "cc"@
    ||| ext == "class"@
    ||| ext == "cpio"@
    ||| ext == "dmg"@
    ||| ext == "dll"@
    ||| ext == "elf"@
    ||| ext == "exe"@
    ||| ext == "img"@
    ||| ext == "iso"@
    ||| ext == "jar"@
    ||| ext == "ko"@
    ||| ext == "o"@
    ||| ext == "obj"@
    ||| ext == "ovpn"@
    ||| ext == "pkg"@
    ||| ext == "pyc"@
    ||| ext == "raw"@
    ||| ext == "so"@
    ||| ext == "sys"@
}

pub fn is_binary_extension(ext: &str) -> (r: bool)
    ensures
        r == binary_extension(ext@),
{
    same(ext, "7z") || same(ext, "apk") || same(ext, "bin") || same(ext, "cc") || same(
        ext,
        "class",
    ) || same(ext, "cpio") || same(ext, "dmg") || same(ext, "dll") || same(ext, "elf") || same(
        ext,
        "exe",
    ) || same(ext, "img") || same(ext, "iso") || same(ext, "jar") || same(ext, "ko") || same(
        ext,
        "o",
    ) || same(ext, "obj") || same(ext, "ovpn") || same(ext, "pkg") || same(ext, "pyc") || same(
        ext,
        "raw",
    ) || same(ext, "so") || same(ext, "sys")
}

/// Whether a path lies where binaries lie.
pub open spec fn in_binary_folder(path: Seq<char>) -> bool {
    ||| contains_text(path, "/bin/"@)
    ||| contains_text(path, "/usr/bin/"@)
    ||| contains_text(path, "/sbin/"@)
    ||| contains_text(path, "/usr/sbin/"@)
    ||| contains_text(path, "/lib/"@)
}

/// Whether a file counts as a binary.
pub open spec fn is_binary_file(
    file_type: Seq<char>,
    rel_path: Seq<char>,
    ext: Option<Seq<char>>,
    is_archive: bool,
) -> bool {
    file_type != "symlink"@ && (is_archive || (ext is Some && binary_extension(ext->0))
        || in_binary_folder(ascii_lower(rel_path)))
}

fn contains(s: &Vec<char>, p: &str) -> (r: bool)
    ensures
        r == contains_text(s@, p@),
{
    match find_text(s, p) {
        Some(i) => {
            assert(stands_at(s@, p@, i as int));
            true
        },
        None => false,
    }
}

pub fn is_binary_path(file_type: &str, rel_path: &str, ext: Option<&str>, is_archive: bool) -> (r:
    bool)
    ensures
        r == is_binary_file(file_type@, rel_path@, opt_str(ext), is_archive),
{
    if same(file_type, "symlink") {
        return false;
    }
    if is_archive {
        return true;
    }
    match ext {
        Some(e) => {
            if is_binary_extension(e) {
                return true;
            }
        },
        None => {},
    }
    let chars = to_chars(rel_path);
    let low = to_ascii_lower(&chars);
    contains(&low, "/bin/") || contains(&low, "/usr/bin/") || contains(&low, "/sbin/") || contains(
        &low,
        "/usr/sbin/",
    ) || contains(&low, "/lib/")
}

/// The language that a name in lower case, with its extension, stands for.
pub open spec fn language_of(name: Seq<char>, ext: Seq<char>) -> Seq<char> {
    if ends_with(name, ".md"@) || ends_with(name, ".markdown"@) || contains_text(
        name,
        "/readme"@,
    ) {
        "markdown"@
    } else if ends_with(name, ".json"@) {
        "json"@
    } else if ends_with(name, ".toml"@) || ends_with(name, ".yaml"@) || ends_with(name, ".yml"@) {
        "config"@
    } else if ends_with(name, ".xml"@) || ends_with(name, ".html"@) {
        "markup"@
    } else if ends_with(name, ".rs"@) {
        "rust"@
    } else if ends_with(name, ".py"@) || ends_with(name, ".pyi"@) {
        "python"@
    } else if ext == "c"@ || ext == "h"@ || ext == "cc"@ || ext == "cpp"@ || ext == "cxx"@ || ext
        == "m"@ || ext == "mm"@ {
        "c_family"@
    } else if ext == "go"@ {
        "go"@
    } else if ext == "java"@ || ext == "kt"@ || ext == "rb"@ || ext == "php"@ || ext == "lua"@
        || ext == "pl"@ {
        "script"@
    } else if ext == "js"@ || ext == "ts"@ || ext == "jsx"@ || ext == "tsx"@ || ext == "vue"@
        || ext == "svelte"@ {
        "javascript"@
    } else if ext == "sh"@ || ext == "bash"@ || ext == "zsh"@ || ext == "cmd"@ || ext == "ps1"@
        || ext == "bat"@ {
        "shell"@
    } else {
        "unknown"@
    }
}

/// The extension of a path in lower case, empty where it has none.
pub open spec fn lower_extension(path: Seq<char>) -> Seq<char> {
    match path_extension(path) {
        Some(ext) => ascii_lower(ext),
        None => Seq::empty(),
    }
}

/// The language of a file.
pub open spec fn source_language(path: Seq<char>) -> Seq<char> {
    language_of(ascii_lower(path), lower_extension(path))
}

fn find_lower_extension(path: &str) -> (r: Option<Vec<char>>)
    ensures
        match r {
            Some(v) => path_extension(path@) is Some && v@ == ascii_lower(path_extension(path@)->0),
            None => path_extension(path@) is None,
        },
{
    match extension(path) {
        Some(ext) => Some(to_ascii_lower(&ext)),
        None => None,
    }
}

pub fn infer_source_language(file_name: &str) -> (r: String)
    ensures
        r@ == source_language(file_name@),
{
    let ext = match find_lower_extension(file_name) {
        Some(ext) => ext,
        None => {
            let none: Vec<char> = Vec::new();
            assert(none@ =~= Seq::empty());
            none
        },
    };
    let chars = to_chars(file_name);
    let name = to_ascii_lower(&chars);
    if has_suffix(&name, ".md") || has_suffix(&name, ".markdown") || contains(&name, "/readme") {
        "markdown".to_owned()
    } else if has_suffix(&name, ".json") {
        "json".to_owned()
    } else if has_suffix(&name, ".toml") || has_suffix(&name, ".yaml") || has_suffix(
        &name,
        ".yml",
    ) {
        "config".to_owned()
    } else if has_suffix(&name, ".xml") || has_suffix(&name, ".html") {
        "markup".to_owned()
    } else if has_suffix(&name, ".rs") {
        "rust".to_owned()
    } else if has_suffix(&name, ".py") || has_suffix(&name, ".pyi") {
        "python".to_owned()
    } else if chars_same(&ext, "c") || chars_same(&ext, "h") || chars_same(&ext, "cc")
        || chars_same(&ext, "cpp") || chars_same(&ext, "cxx") || chars_same(&ext, "m")
        || chars_same(&ext, "mm") {
        "c_family".to_owned()
    } else if chars_same(&ext, "go") {
        "go".to_owned()
    } else if chars_same(&ext, "java") || chars_same(&ext, "kt") || chars_same(&ext, "rb")
        || chars_same(&ext, "php") || chars_same(&ext, "lua") || chars_same(&ext, "pl") {
        "script".to_owned()
    } else if chars_same(&ext, "js") || chars_same(&ext, "ts") || chars_same(&ext, "jsx")
        || chars_same(&ext, "tsx") || chars_same(&ext, "vue") || chars_same(&ext, "svelte") {
        "javascript".to_owned()
    } else if chars_same(&ext, "sh") || chars_same(&ext, "bash") || chars_same(&ext, "zsh")
        || chars_same(&ext, "cmd") || chars_same(&ext, "ps1") || chars_same(&ext, "bat") {
        "shell".to_owned()
    } else {
        "unknown".to_owned()
    }
}

/// The language and the name of a text.
pub open spec fn text_signature_of(
    rel_path: Seq<char>,
    language: Seq<char>,
    normalized_name: Seq<char>,
) -> Seq<char> {
    language + ":"@ + (if normalized_name.len() == 0 {
        normal_name(rel_path)
    } else {
        normalized_name
    })
}

pub fn infer_text_signature(rel_path: &str, language: &str, normalized_name: &str) -> (r: String)
    ensures
        r@ == text_signature_of(rel_path@, language@, normalized_name@),
{
    let mut text = to_chars(language);
    extend_str(&mut text, ":");
    if normalized_name.is_empty() {
        let name = normalize_name(rel_path);
        extend(&mut text, &name);
    } else {
        extend_str(&mut text, normalized_name);
    }
    from_chars(&text)
}

// ---------------------------------------------------------------------------
// Profiles
// ---------------------------------------------------------------------------

/// The name of a file in lower case.
pub open spec fn lower_name(rel_path: Seq<char>) -> Seq<char> {
    unicode_lower(
        match path_file_name(rel_path) {
            Some(name) => name,
            None => Seq::empty(),
        },
    )
}

/// The profile of a link: its directory, and nothing of its content.
pub open spec fn link_profile(rel_path: Seq<char>) -> Profile {
    Profile {
        normalized_name: "symlink"@,
        normalized_folder: normal_folder(rel_path),
        ext: Seq::empty(),
        is_binary: false,
        is_archive: false,
        archive_family: None,
        language: "symlink"@,
        size_class: size_class_of(0),
        binary_signature: None,
        binary_descriptor: None,
        text_signature: None,
        archive_signature: None,
    }
}

/// The profile of a file.
pub open spec fn file_profile(
    rel_path: Seq<char>,
    file_type: Seq<char>,
    size: u64,
    fast_hash: Option<Seq<char>>,
) -> Profile {
    let name = lower_name(rel_path);
    let ext = match path_extension(rel_path) {
        Some(e) => Some(ascii_lower(e)),
        None => None,
    };
    let family = archive_family_of(name);
    let is_binary = is_binary_file(file_type, name, ext, family is Some);
    let language = source_language(rel_path);
    let class = size_class_of(size);
    Profile {
        normalized_name: normal_name(name),
        normalized_folder: normal_folder(rel_path),
        ext: lower_extension(rel_path),
        is_binary,
        is_archive: family is Some,
        archive_family: family,
        language,
        size_class: class,
        binary_signature: if is_binary {
            Some(binary_signature_of(rel_path, ext, family, class))
        } else {
            None
        },
        binary_descriptor: if is_binary {
            Some(binary_descriptor_of(rel_path, ext, family, class, fast_hash, None))
        } else {
            None
        },
        text_signature: if !is_binary && language != "unknown"@ {
            Some(text_signature_of(rel_path, language, normal_name(name)))
        } else {
            None
        },
        archive_signature: match family {
            Some(f) => payload_signature_of(rel_path, f),
            None => None,
        },
    }
}

/// The profile of an entry.
pub open spec fn profile_of(
    rel_path: Seq<char>,
    file_type: Seq<char>,
    size: u64,
    fast_hash: Option<Seq<char>>,
) -> Profile {
    if file_type == "symlink"@ {
        link_profile(rel_path)
    } else {
        file_profile(rel_path, file_type, size, fast_hash)
    }
}

fn as_str_opt<'a>(s: &'a Option<String>) -> (r: Option<&'a str>)
    ensures
        opt_str(r) == opt_text(*s),
{
    match s {
        Some(v) => Some(v.as_str()),
        None => None,
    }
}

fn profile_of_file(rel_path: &str, file_type: &str, size: u64, fast_hash: Option<&str>) -> (r:
    FileFingerprintProfile)
    ensures
        r@ == file_profile(rel_path@, file_type@, size, opt_str(fast_hash)),
{
    let name = match file_name(rel_path) {
        Some(name) => from_chars(&name),
        None => {
            let none = String::new();
            assert(none@ =~= Seq::empty());
            none
        },
    };
    let name = str_to_lowercase(name.as_str());
    let ext: Option<String> = match find_lower_extension(rel_path) {
        Some(e) => Some(from_chars(&e)),
        None => None,
    };
    let family = infer_archive_family(name.as_str());
    let is_archive = family.is_some();
    let is_binary = is_binary_path(file_type, name.as_str(), as_str_opt(&ext), is_archive);
    let language = infer_source_language(rel_path);
    let size_class = infer_size_class(size);
    let normalized_name = normalize_fingerprint_name(name.as_str());
    let normalized_folder = normalize_fingerprint_folder(rel_path);
    let archive_signature = match &family {
        Some(f) => infer_archive_payload_signature(rel_path, f.as_str()),
        None => None,
    };
    let binary_signature = if is_binary {
        Some(
            infer_binary_signature(
                rel_path,
                as_str_opt(&ext),
                as_str_opt(&family),
                size_class.as_str(),
            ),
        )
    } else {
        None
    };
    let binary_descriptor = if is_binary {
        Some(
            infer_binary_descriptor(
                rel_path,
                as_str_opt(&ext),
                as_str_opt(&family),
                size_class.as_str(),
                fast_hash,
                None,
            ),
        )
    } else {
        None
    };
    let text_signature = if !is_binary && !same(language.as_str(), "unknown") {
        Some(infer_text_signature(rel_path, language.as_str(), normalized_name.as_str()))
    } else {
        None
    };
    let ext = match ext {
        Some(e) => e,
        None => {
            let none = String::new();
            assert(none@ =~= Seq::empty());
            none
        },
    };
    FileFingerprintProfile {
        normalized_name,
        normalized_folder,
        ext,
        is_binary,
        is_archive,
        archive_family: family,
        language,
        size_class,
        binary_signature,
        binary_descriptor,
        text_signature,
        archive_signature,
    }
}

pub fn build_file_fingerprint_profile(
    rel_path: &str,
    file_type: &str,
    size: u64,
    fast_hash: Option<&str>,
) -> (r: FileFingerprintProfile)
    ensures
        r@ == profile_of(rel_path@, file_type@, size, opt_str(fast_hash)),
{
    if same(file_type, "symlink") {
        let ext = String::new();
        assert(ext@ =~= Seq::empty());
        return FileFingerprintProfile {
            normalized_name: "symlink".to_owned(),
            normalized_folder: normalize_fingerprint_folder(rel_path),
            ext,
            is_binary: false,
            is_archive: false,
            archive_family: None,
            language: "symlink".to_owned(),
            size_class: infer_size_class(0),
            binary_signature: None,
            binary_descriptor: None,
            text_signature: None,
            archive_signature: None,
        };
    }
    profile_of_file(rel_path, file_type, size, fast_hash)
}

} // verus!
