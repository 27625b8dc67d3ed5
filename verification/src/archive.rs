//! Archives by their names: extensions, families, stems, and the paths under
//! which their contents are filed.

use crate::path::{extension, file_name, file_stem, path_extension, path_file_name, path_stem};
use crate::text::{
    alphanumeric_test, ascii_lower, char_texts, chars_same, copy_chars, drop_bytes, ends_with,
    extend, extend_str, from_chars, is_alphanumeric, join, joined, lower_char, lower_one,
    opt_chars, opt_text, pieces, replace_char, replaced, slice, split, split_words, stands,
    str_to_lowercase, strip, stripped, to_ascii_lower, to_chars, trim, trim_start, trimmed,
    trimmed_start, unicode_lower, without_bytes, words, CharClass,
};
use vstd::prelude::*;

verus! {

// ---------------------------------------------------------------------------
// Extensions
// ---------------------------------------------------------------------------

/// The extensions that mark an archive.
pub open spec fn archive_extensions() -> Seq<Seq<char>> {
    seq![
        ".tar.gz"@,
        ".tar.xz"@,
        ".tar.bz2"@,
        ".zip+txt"@,
        ".img.raw"@,
        ".zip"@,
        ".7z"@,
        ".tar"@,
        ".rar"@,
        ".img"@,
        ".iso"@,
        ".raw"@,
        ".bin"@,
        ".dmg"@,
        ".apk"@,
        ".jar"@,
        ".ovpn"@,
        ".cpio"@,
    ]
}

fn archive_extension_list() -> (r: Vec<Vec<char>>)
    ensures
        char_texts(r@) == archive_extensions(),
{
    let mut r: Vec<Vec<char>> = Vec::new();
    r.push(to_chars(".tar.gz"));
    r.push(to_chars(".tar.xz"));
    r.push(to_chars(".tar.bz2"));
    r.push(to_chars(".zip+txt"));
    r.push(to_chars(".img.raw"));
    r.push(to_chars(".zip"));
    r.push(to_chars(".7z"));
    r.push(to_chars(".tar"));
    r.push(to_chars(".rar"));
    r.push(to_chars(".img"));
    r.push(to_chars(".iso"));
    r.push(to_chars(".raw"));
    r.push(to_chars(".bin"));
    r.push(to_chars(".dmg"));
    r.push(to_chars(".apk"));
    r.push(to_chars(".jar"));
    r.push(to_chars(".ovpn"));
    r.push(to_chars(".cpio"));
    assert(char_texts(r@) =~= archive_extensions());
    r
}

/// The longest of the first `n` archive extensions that a name ends with.
pub open spec fn longest_extension(name: Seq<char>, n: int) -> Option<Seq<char>>
    decreases n,
{
    if n <= 0 {
        None
    } else {
        let before = longest_extension(name, n - 1);
        let ext = archive_extensions()[n - 1];
        if ends_with(name, ext) && (before is None || ext.len() > before->0.len()) {
            Some(ext)
        } else {
            before
        }
    }
}

/// The archive extension of a name in lower case: the longest that it ends with.
pub open spec fn archive_extension(name: Seq<char>) -> Option<Seq<char>> {
    longest_extension(name, archive_extensions().len() as int)
}

fn has_ending(name: &Vec<char>, ext: &Vec<char>) -> (r: bool)
    ensures
        r == ends_with(name@, ext@),
{
    ext.len() <= name.len() && stands(name, ext, name.len() - ext.len())
}

fn find_archive_extension(name: &Vec<char>) -> (r: Option<Vec<char>>)
    ensures
        opt_chars(r) == archive_extension(name@),
{
    let list = archive_extension_list();
    let mut best: Option<Vec<char>> = None;
    let mut i: usize = 0;
    while i < list.len()
        invariant
            i <= list@.len(),
            char_texts(list@) == archive_extensions(),
            opt_chars(best) == longest_extension(name@, i as int),
        decreases list@.len() - i,
    {
        let ext = &list[i];
        assert(archive_extensions()[i as int] == ext@) by {
            assert(char_texts(list@)[i as int] == ext@);
        }
        if has_ending(name, ext) {
            let longer = match &best {
                Some(b) => ext.len() > b.len(),
                None => true,
            };
            if longer {
                best = Some(copy_chars(ext));
            }
        }
        i = i + 1;
    }
    assert(archive_extensions().len() == list@.len()) by {
        assert(char_texts(list@).len() == list@.len());
    }
    best
}

/// The archive extension is the longest of those that a name ends with.
pub proof fn law_archive_extension_is_longest(name: Seq<char>, k: int)
    requires
        0 <= k < archive_extensions().len(),
        ends_with(name, archive_extensions()[k]),
    ensures
        archive_extension(name) is Some,
        ends_with(name, archive_extension(name)->0),
        archive_extension(name)->0.len() >= archive_extensions()[k].len(),
{
    lemma_longest(name, archive_extensions().len() as int, k);
}

proof fn lemma_longest(name: Seq<char>, n: int, k: int)
    requires
        0 <= n <= archive_extensions().len(),
    ensures
        longest_extension(name, n) is Some ==> ends_with(name, longest_extension(name, n)->0),
        0 <= k < n && ends_with(name, archive_extensions()[k]) ==> longest_extension(
            name,
            n,
        ) is Some && longest_extension(name, n)->0.len() >= archive_extensions()[k].len(),
    decreases n,
{
    if n > 0 {
        lemma_longest(name, n - 1, k);
    }
}

/// Whether a path names an archive.
pub open spec fn names_archive(path: Seq<char>) -> bool {
    archive_extension(unicode_lower(path)) is Some
}

pub fn is_archive_path(path: &str) -> (r: bool)
    ensures
        r == names_archive(path@),
{
    let low = str_to_lowercase(path);
    let chars = to_chars(low.as_str());
    find_archive_extension(&chars).is_some()
}

/// The archive extension of a name, or the extension that is given.
pub open spec fn extension_signature(name: Seq<char>, extension: Seq<char>) -> Seq<char> {
    match archive_extension(ascii_lower(name)) {
        Some(ext) => ext,
        None => extension,
    }
}

pub fn dossier_extension_signature(file_name: &str, extension: &str) -> (r: String)
    ensures
        r@ == extension_signature(file_name@, extension@),
{
    let chars = to_chars(file_name);
    let low = to_ascii_lower(&chars);
    match find_archive_extension(&low) {
        Some(ext) => from_chars(&ext),
        None => extension.to_owned(),
    }
}

// ---------------------------------------------------------------------------
// Families
// ---------------------------------------------------------------------------

/// The archive extensions of a name in lower case, the innermost first, each
/// without its dot.
pub open spec fn family_parts(name: Seq<char>) -> Seq<Seq<char>>
    decreases name.len(),
{
    match (path_extension(name), archive_extension(name)) {
        (Some(_), Some(ext)) => if 0 < ext.len() < name.len() {
            family_parts(name.take(name.len() - ext.len())).push(
                trimmed_start(ext, CharClass::Is('.')),
            )
        } else {
            Seq::empty()
        },
        _ => Seq::empty(),
    }
}

/// The archive family of a file name: its archive extensions, joined by dots.
pub open spec fn archive_family_of(file_name: Seq<char>) -> Option<Seq<char>> {
    let parts = family_parts(ascii_lower(file_name));
    if parts.len() == 0 {
        None
    } else {
        Some(joined(parts, seq!['.']))
    }
}

fn collect_family(name: &Vec<char>) -> (r: Vec<Vec<char>>)
    ensures
        char_texts(r@) == family_parts(name@),
    decreases name@.len(),
{
    let text = from_chars(name);
    let none: Vec<Vec<char>> = Vec::new();
    assert(char_texts(none@) =~= Seq::empty());
    if extension(text.as_str()).is_none() {
        return none;
    }
    match find_archive_extension(name) {
        Some(ext) => {
            if ext.len() == 0 || ext.len() >= name.len() {
                return none;
            }
            let inner = slice(name, 0, name.len() - ext.len());
            assert(inner@ =~= name@.take(name@.len() - ext@.len()));
            let mut r = collect_family(&inner);
            let ghost before = char_texts(r@);
            let part = trim_start(&ext, &CharClass::Is('.'));
            let ghost p = part@;
            r.push(part);
            assert(char_texts(r@) =~= before.push(p));
            r
        },
        None => none,
    }
}

pub fn infer_archive_family(file_name: &str) -> (r: Option<String>)
    ensures
        opt_text(r) == archive_family_of(file_name@),
{
    let chars = to_chars(file_name);
    let low = to_ascii_lower(&chars);
    let parts = collect_family(&low);
    assert(char_texts(parts@).len() == parts@.len());
    if parts.len() == 0 {
        return None;
    }
    let text = join(&parts, ".");
    proof {
        reveal_strlit(".");
        assert("."@ =~= seq!['.']);
    }
    Some(from_chars(&text))
}

/// The part of a family as it is filed: raw images are images.
pub open spec fn archive_token(token: Seq<char>) -> Seq<char> {
    if token == "raw"@ {
        "img"@
    } else {
        token
    }
}

fn normalize_archive_token(token: &Vec<char>) -> (r: Vec<char>)
    ensures
        r@ == archive_token(token@),
{
    if chars_same(token, "raw") {
        to_chars("img")
    } else {
        copy_chars(token)
    }
}

/// The parts of a family.
pub open spec fn family_words(family: Seq<char>) -> Seq<Seq<char>> {
    words(family, CharClass::DotOrPlus)
}

/// The number of parts of a family.
pub fn archive_family_depth(archive_family: &str) -> (r: usize)
    ensures
        r == family_words(archive_family@).len(),
{
    let chars = to_chars(archive_family);
    let parts = split_words(&chars, &CharClass::DotOrPlus);
    assert(char_texts(parts@).len() == parts@.len());
    parts.len()
}

/// The first part of a family, as it is filed.
pub open spec fn payload_root(family: Seq<char>) -> Option<Seq<char>> {
    let parts = family_words(family);
    if parts.len() == 0 {
        None
    } else {
        Some(archive_token(parts[0]))
    }
}

pub fn archive_payload_root_from_family(archive_family: &str) -> (r: Option<String>)
    ensures
        opt_text(r) == payload_root(archive_family@),
{
    let chars = to_chars(archive_family);
    let parts = split_words(&chars, &CharClass::DotOrPlus);
    assert(char_texts(parts@).len() == parts@.len());
    if parts.len() == 0 {
        return None;
    }
    assert(char_texts(parts@)[0] == parts@[0]@);
    let root = normalize_archive_token(&parts[0]);
    Some(from_chars(&root))
}

/// The first part of the family of a name with a family of several parts.
pub open spec fn archive_signature_of(file_name: Seq<char>) -> Option<Seq<char>> {
    match archive_family_of(file_name) {
        Some(family) => if family_words(family).len() < 2 {
            None
        } else {
            payload_root(family)
        },
        None => None,
    }
}

pub fn dossier_archive_signature(file_name: &str) -> (r: Option<String>)
    ensures
        opt_text(r) == archive_signature_of(file_name@),
{
    match infer_archive_family(file_name) {
        Some(family) => {
            if archive_family_depth(family.as_str()) < 2 {
                None
            } else {
                archive_payload_root_from_family(family.as_str())
            }
        },
        None => None,
    }
}

// ---------------------------------------------------------------------------
// Stems
// ---------------------------------------------------------------------------

/// The last name of a path, or all of it where it has none.
pub open spec fn base_name(path: Seq<char>) -> Seq<char> {
    match path_file_name(path) {
        Some(name) => name,
        None => path,
    }
}

/// The longest of the first `n` archive extensions that a name in lower case
/// ends with and that the name itself can be cut short by.
pub open spec fn longest_cut(name: Seq<char>, lower: Seq<char>, n: int) -> Option<(int, Seq<char>)>
    decreases n,
{
    if n <= 0 {
        None
    } else {
        let before = longest_cut(name, lower, n - 1);
        let ext = archive_extensions()[n - 1];
        let stem = without_bytes(name, ext.len() as int);
        if ends_with(lower, ext) && stem is Some && (before is None || ext.len()
            >= (before->0).0) {
            Some((ext.len() as int, stem->0))
        } else {
            before
        }
    }
}

/// A text without the dot at its end.
pub open spec fn without_dot(s: Seq<char>) -> Seq<char> {
    if s.len() > 0 && s.last() == '.' {
        s.drop_last()
    } else {
        s
    }
}

/// The stem of an archive's name: the name without its archive extension, or
/// without its extension where it has none of an archive.
pub open spec fn archive_stem(path: Seq<char>) -> Seq<char> {
    let name = base_name(path);
    let plain = match path_stem(name) {
        Some(stem) => stem,
        None => name,
    };
    without_dot(
        match longest_cut(name, unicode_lower(name), archive_extensions().len() as int) {
            Some((_, stem)) => stem,
            None => plain,
        },
    )
}

fn cut_extension(name: &Vec<char>, lower: &Vec<char>) -> (r: Option<Vec<char>>)
    ensures
        match longest_cut(name@, lower@, archive_extensions().len() as int) {
            Some((_, stem)) => opt_chars(r) == Some(stem),
            None => r is None,
        },
{
    let list = archive_extension_list();
    let mut best: Option<Vec<char>> = None;
    let mut best_len: usize = 0;
    let mut i: usize = 0;
    assert(char_texts(list@).len() == list@.len());
    while i < list.len()
        invariant
            i <= list@.len(),
            char_texts(list@) == archive_extensions(),
            match longest_cut(name@, lower@, i as int) {
                Some((n, stem)) => opt_chars(best) == Some(stem) && best_len == n,
                None => best is None,
            },
        decreases list@.len() - i,
    {
        let ext = &list[i];
        assert(archive_extensions()[i as int] == ext@) by {
            assert(char_texts(list@)[i as int] == ext@);
        }
        if has_ending(lower, ext) {
            match drop_bytes(name, ext.len()) {
                Some(stem) => {
                    if best.is_none() || ext.len() >= best_len {
                        best = Some(stem);
                        best_len = ext.len();
                    }
                },
                None => {},
            }
        }
        i = i + 1;
    }
    best
}

pub fn build_archive_stem(rel_path: &str) -> (r: String)
    ensures
        r@ == archive_stem(rel_path@),
{
    let name = match file_name(rel_path) {
        Some(name) => name,
        None => to_chars(rel_path),
    };
    let name_text = from_chars(&name);
    let lower = str_to_lowercase(name_text.as_str());
    let lower = to_chars(lower.as_str());
    let stem = match cut_extension(&name, &lower) {
        Some(stem) => stem,
        None => match file_stem(name_text.as_str()) {
            Some(stem) => stem,
            None => name,
        },
    };
    let n: usize = stem.len();
    if n > 0 && stem[n - 1] == '.' {
        let short = slice(&stem, 0, n - 1);
        assert(short@ =~= stem@.drop_last());
        from_chars(&short)
    } else {
        from_chars(&stem)
    }
}

// ---------------------------------------------------------------------------
// Virtual paths
// ---------------------------------------------------------------------------

/// The family of a path with a slash between its parts, as they are filed.
pub open spec fn family_path(path: Seq<char>) -> Seq<char> {
    let family = match archive_family_of(path) {
        Some(family) => family,
        None => "archive"@,
    };
    joined(family_words(family).map_values(|p: Seq<char>| archive_token(p)), seq!['/'])
}

fn build_archive_family_path(path: &str) -> (r: Vec<char>)
    ensures
        r@ == family_path(path@),
{
    let family = match infer_archive_family(path) {
        Some(family) => family,
        None => "archive".to_owned(),
    };
    let chars = to_chars(family.as_str());
    let parts = split_words(&chars, &CharClass::DotOrPlus);
    let mut filed: Vec<Vec<char>> = Vec::new();
    let ghost want = char_texts(parts@).map_values(|p: Seq<char>| archive_token(p));
    let mut i: usize = 0;
    while i < parts.len()
        invariant
            i <= parts@.len(),
            want == char_texts(parts@).map_values(|p: Seq<char>| archive_token(p)),
            char_texts(filed@) =~= want.take(i as int),
        decreases parts@.len() - i,
    {
        let ghost before = char_texts(filed@);
        let token = normalize_archive_token(&parts[i]);
        let ghost t = token@;
        filed.push(token);
        proof {
            assert(want[i as int] == t);
            assert(char_texts(filed@) =~= before.push(t));
            assert(want.take(i as int + 1) =~= want.take(i as int).push(t));
        }
        i = i + 1;
    }
    proof {
        assert(want.take(i as int) =~= want);
        reveal_strlit("/");
        assert("/"@ =~= seq!['/']);
    }
    join(&filed, "/")
}

/// Something filed under an archive family.
pub open spec fn filed_under(what: Seq<char>, family: Seq<char>) -> Seq<char> {
    if family.len() == 0 {
        what + "/"@
    } else {
        what + "/@"@ + family
    }
}

fn file_under(what: &str, family: &Vec<char>) -> (r: String)
    ensures
        r@ == filed_under(what@, family@),
{
    let mut r = to_chars(what);
    if family.len() == 0 {
        extend_str(&mut r, "/");
    } else {
        extend_str(&mut r, "/@");
        extend(&mut r, family);
    }
    from_chars(&r)
}

/// The path under which an archive's contents are filed.
pub open spec fn virtual_path_of(rel_path: Seq<char>) -> Seq<char> {
    let path = replaced(rel_path, '\\', '/');
    filed_under(archive_stem(path), family_path(path))
}

pub fn build_virtual_archive_path(rel_path: &str) -> (r: String)
    ensures
        r@ == virtual_path_of(rel_path@),
{
    let chars = to_chars(rel_path);
    let path = replace_char(&chars, '\\', '/');
    let path = from_chars(&path);
    let stem = build_archive_stem(path.as_str());
    let family = build_archive_family_path(path.as_str());
    file_under(stem.as_str(), &family)
}

/// A name in lower case, with one underscore for each run of characters that
/// are no ASCII letters or digits.
pub open spec fn underscored(s: Seq<char>) -> Seq<char>
    decreases s.len(),
{
    if s.len() == 0 {
        Seq::empty()
    } else {
        let init = underscored(s.drop_last());
        let c = s.last();
        if is_alphanumeric(c) {
            init.push(lower_char(c))
        } else if init.len() > 0 && init.last() == '_' {
            init
        } else {
            init.push('_')
        }
    }
}

fn to_underscored(s: &Vec<char>) -> (r: Vec<char>)
    ensures
        r@ == underscored(s@),
{
    let mut r: Vec<char> = Vec::new();
    let mut i: usize = 0;
    while i < s.len()
        invariant
            i <= s@.len(),
            r@ == underscored(s@.take(i as int)),
        decreases s@.len() - i,
    {
        let c = s[i];
        assert(s@.take(i as int + 1).drop_last() =~= s@.take(i as int));
        if alphanumeric_test(c) {
            r.push(lower_one(c));
        } else {
            let n: usize = r.len();
            if !(n > 0 && r[n - 1] == '_') {
                r.push('_');
            }
        }
        i = i + 1;
    }
    assert(s@.take(i as int) =~= s@);
    r
}

/// The names of a member behind the first `n` segments of its path: each
/// segment as a plain name, `..` taking the name before it back.
pub open spec fn member_names(segments: Seq<Seq<char>>, n: int) -> Seq<Seq<char>>
    decreases n,
{
    if n <= 0 {
        Seq::empty()
    } else {
        let before = member_names(segments, n - 1);
        let seg = stripped(segments[n - 1]);
        let name = trimmed(underscored(seg), CharClass::Is('_'));
        if seg.len() == 0 || seg == "."@ {
            before
        } else if seg == ".."@ {
            if before.len() == 0 {
                before
            } else {
                before.drop_last()
            }
        } else if name.len() == 0 {
            before
        } else {
            before.push(name)
        }
    }
}

/// The identity of an archive's member.
pub open spec fn member_identity(value: Seq<char>) -> Seq<char> {
    let segments = pieces(replaced(value, '\\', '/'), CharClass::Is('/'));
    let names = member_names(segments, segments.len() as int);
    if names.len() == 0 {
        "member"@
    } else {
        joined(names, seq!['/'])
    }
}

pub fn normalize_virtual_archive_member_identity(value: &str) -> (r: String)
    ensures
        r@ == member_identity(value@),
{
    let chars = to_chars(value);
    let path = replace_char(&chars, '\\', '/');
    let segments = split(&path, &CharClass::Is('/'));
    let ghost all = char_texts(segments@);
    let mut names: Vec<Vec<char>> = Vec::new();
    let mut i: usize = 0;
    assert(char_texts(names@) =~= Seq::empty());
    while i < segments.len()
        invariant
            i <= segments@.len(),
            all == char_texts(segments@),
            char_texts(names@) == member_names(all, i as int),
        decreases segments@.len() - i,
    {
        assert(all[i as int] == segments@[i as int]@);
        assert(char_texts(names@).len() == names@.len());
        let seg = strip(&segments[i]);
        let ghost before = char_texts(names@);
        let ghost held = names@;
        if seg.len() == 0 || chars_same(&seg, ".") {
            // Stays where it is.
        } else if chars_same(&seg, "..") {
            names.pop();
            proof {
                if held.len() > 0 {
                    assert(char_texts(names@) =~= before.drop_last());
                }
            }
        } else {
            let plain = to_underscored(&seg);
            let name = trim(&plain, &CharClass::Is('_'));
            if name.len() > 0 {
                let ghost t = name@;
                names.push(name);
                assert(char_texts(names@) =~= before.push(t));
            }
        }
        i = i + 1;
    }
    assert(all.len() == segments@.len());
    assert(char_texts(names@).len() == names@.len());
    if names.len() == 0 {
        return "member".to_owned();
    }
    let text = join(&names, "/");
    proof {
        reveal_strlit("/");
        assert("/"@ =~= seq!['/']);
    }
    from_chars(&text)
}

/// The path under which an archive is filed as a member.
pub open spec fn virtual_member_of(rel_path: Seq<char>) -> Seq<char> {
    let path = replaced(rel_path, '\\', '/');
    filed_under(member_identity(archive_stem(path)), family_path(path))
}

pub fn build_virtual_archive_member_path(rel_path: &str) -> (r: String)
    ensures
        r@ == virtual_member_of(rel_path@),
{
    let chars = to_chars(rel_path);
    let path = replace_char(&chars, '\\', '/');
    let path = from_chars(&path);
    let stem = build_archive_stem(path.as_str());
    let member = normalize_virtual_archive_member_identity(stem.as_str());
    let family = build_archive_family_path(path.as_str());
    file_under(member.as_str(), &family)
}

} // verus!
