//! Laws of the families of archives and of the identities of their members.

use crate::archive::{
    archive_extension, archive_extensions, archive_family_of, archive_stem, extension_signature,
    family_parts, filed_under, law_archive_extension_is_longest, longest_cut, longest_extension,
    member_identity, member_names, names_archive, payload_root, underscored,
};
use crate::archive_rows::{is_stale, row_step, ArchiveRowStep};
use crate::fingerprint::{component, payload_signature_of};
use crate::fingerprint_laws::{law_names_in_descriptors, lemma_endings_agree, lemma_ends};
use crate::path::{lemma_extension_dot, name_extension};
use crate::path_laws::{is_name, law_bare_name};
use crate::record::FileRecord;
use crate::text::{
    ascii_lower, ends_with, is_digit, is_lower, joined, lemma_split_of_join, lemma_trimmed_end,
    lemma_trimmed_start, pieces, replaced, stripped, trimmed, trimmed_end, trimmed_start,
    unicode_lower, without_bytes, CharClass,
};
use vstd::prelude::*;

verus! {

/// A lower-case letter, a digit or an underscore.
pub open spec fn is_plain_char(c: char) -> bool {
    is_digit(c) || is_lower(c) || c == '_'
}

/// Whether no two underscores stand side by side.
pub open spec fn has_single_underscores(s: Seq<char>) -> bool {
    forall|i: int, j: int|
        #![trigger s[i], s[j]]
        0 <= i && j == i + 1 && j < s.len() ==> s[i] != '_' || s[j] != '_'
}

/// Whether a name is plain: it is not empty, is made of lower-case letters,
/// digits and single underscores, and neither starts nor ends with one.
pub open spec fn is_plain_name(s: Seq<char>) -> bool {
    &&& s.len() > 0
    &&& forall|i: int| 0 <= i < s.len() ==> is_plain_char(#[trigger] s[i])
    &&& has_single_underscores(s)
    &&& s[0] != '_'
    &&& s.last() != '_'
}

proof fn lemma_underscored(s: Seq<char>)
    ensures
        forall|i: int| 0 <= i < underscored(s).len()
            ==> is_plain_char(#[trigger] underscored(s)[i]),
        has_single_underscores(underscored(s)),
    decreases s.len(),
{
    if s.len() > 0 {
        lemma_underscored(s.drop_last());
    }
}

proof fn lemma_trimmed_name(s: Seq<char>)
    requires
        forall|i: int| 0 <= i < s.len() ==> is_plain_char(#[trigger] s[i]),
        has_single_underscores(s),
        trimmed(s, CharClass::Is('_')).len() > 0,
    ensures
        is_plain_name(trimmed(s, CharClass::Is('_'))),
{
    let class = CharClass::Is('_');
    let n = lemma_trimmed_start(s, class);
    let t = trimmed_start(s, class);
    let m = lemma_trimmed_end(t, class);
    let r = trimmed_end(t, class);
    assert(t == s.skip(n));
    assert(r == t.take(m));
    assert forall|i: int| 0 <= i < r.len() implies #[trigger] r[i] == s[n + i] by {}
    assert(r[0] == s[n]);
    assert(r.last() == t[m - 1]);
    assert forall|i: int, j: int|
        #![trigger r[i], r[j]]
        0 <= i && j == i + 1 && j < r.len() implies r[i] != '_' || r[j] != '_' by {
        assert(r[i] == s[n + i] && r[j] == s[n + j]);
    }
}

proof fn lemma_names_are_plain(segments: Seq<Seq<char>>, n: int)
    ensures
        forall|k: int|
            0 <= k < member_names(segments, n).len() ==> is_plain_name(
                #[trigger] member_names(segments, n)[k],
            ),
    decreases n,
{
    if n > 0 {
        lemma_names_are_plain(segments, n - 1);
        let seg = stripped(segments[n - 1]);
        lemma_underscored(seg);
        if trimmed(underscored(seg), CharClass::Is('_')).len() > 0 {
            lemma_trimmed_name(underscored(seg));
        }
        let before = member_names(segments, n - 1);
        let names = member_names(segments, n);
        assert forall|k: int| 0 <= k < names.len() implies is_plain_name(#[trigger] names[k]) by {
            if k < before.len() {
                assert(names[k] == before[k]);
            }
        }
    }
}

proof fn lemma_nothing_to_trim(s: Seq<char>, class: CharClass)
    requires
        s.len() > 0,
        !class.has(s[0]),
        !class.has(s.last()),
    ensures
        trimmed(s, class) == s,
{
}

proof fn lemma_underscored_plain(s: Seq<char>)
    requires
        forall|i: int| 0 <= i < s.len() ==> is_plain_char(#[trigger] s[i]),
        has_single_underscores(s),
    ensures
        underscored(s) == s,
    decreases s.len(),
{
    if s.len() > 0 {
        let init = s.drop_last();
        assert forall|i: int, j: int|
            #![trigger init[i], init[j]]
            0 <= i && j == i + 1 && j < init.len() implies init[i] != '_' || init[j] != '_' by {
            assert(s[i] == init[i] && s[j] == init[j]);
        }
        assert forall|i: int| 0 <= i < init.len() implies is_plain_char(#[trigger] init[i]) by {
            assert(s[i] == init[i]);
        }
        lemma_underscored_plain(init);
        assert(is_plain_char(s[s.len() - 1]));
        if init.len() > 0 {
            assert(init.last() == s[s.len() - 2]);
            assert(s[s.len() - 2] != '_' || s[s.len() - 1] != '_');
        }
        assert(init.push(s.last()) =~= s);
    }
}

/// A plain name stands for itself.
proof fn lemma_plain_name_stays(s: Seq<char>)
    requires
        is_plain_name(s),
    ensures
        stripped(s) == s,
        s != "."@,
        s != ".."@,
        trimmed(underscored(s), CharClass::Is('_')) == s,
        !s.contains('/'),
{
    reveal_strlit(".");
    reveal_strlit("..");
    assert(is_plain_char(s[0]));
    assert(is_plain_char(s[s.len() - 1]));
    lemma_nothing_to_trim(s, CharClass::Space);
    lemma_underscored_plain(s);
    lemma_nothing_to_trim(s, CharClass::Is('_'));
    if s.contains('/') {
        assert(is_plain_char(s[s.index_of('/')]));
    }
}

proof fn lemma_plain_names_stay(names: Seq<Seq<char>>, n: int)
    requires
        0 <= n <= names.len(),
        forall|k: int| 0 <= k < names.len() ==> is_plain_name(#[trigger] names[k]),
    ensures
        member_names(names, n) == names.take(n),
    decreases n,
{
    if n > 0 {
        lemma_plain_names_stay(names, n - 1);
        lemma_plain_name_stays(names[n - 1]);
        assert(names.take(n) =~= names.take(n - 1).push(names[n - 1]));
    } else {
        assert(names.take(0) =~= Seq::empty());
    }
}

proof fn lemma_joined_chars(names: Seq<Seq<char>>, i: int)
    requires
        forall|k: int| 0 <= k < names.len() ==> is_plain_name(#[trigger] names[k]),
        0 <= i < joined(names, seq!['/']).len(),
    ensures
        is_plain_char(joined(names, seq!['/'])[i]) || joined(names, seq!['/'])[i] == '/',
    decreases names.len(),
{
    if names.len() == 1 {
        assert(is_plain_char(names[0][i]));
    } else if names.len() > 1 {
        let init = names.drop_last();
        let lead = joined(init, seq!['/']);
        assert forall|k: int| 0 <= k < init.len() implies is_plain_name(#[trigger] init[k]) by {
            assert(names[k] == init[k]);
        }
        if i < lead.len() {
            lemma_joined_chars(init, i);
        } else if i > lead.len() {
            let last = names[names.len() - 1];
            assert(joined(names, seq!['/'])[i] == last[i - lead.len() - 1]);
            assert(is_plain_char(last[i - lead.len() - 1]));
        }
    }
}

/// The names that an identity is made of.
pub open spec fn identity_names(value: Seq<char>) -> Seq<Seq<char>> {
    let segments = pieces(replaced(value, '\\', '/'), CharClass::Is('/'));
    member_names(segments, segments.len() as int)
}

/// The identity of plain names is made of them, and is its own identity.
proof fn lemma_identity_of_names(names: Seq<Seq<char>>)
    requires
        names.len() > 0,
        forall|k: int| 0 <= k < names.len() ==> is_plain_name(#[trigger] names[k]),
    ensures
        pieces(joined(names, seq!['/']), CharClass::Is('/')) == names,
        member_identity(joined(names, seq!['/'])) == joined(names, seq!['/']),
{
    let text = joined(names, seq!['/']);
    assert forall|k: int| 0 <= k < names.len() implies !(#[trigger] names[k]).contains('/') by {
        lemma_plain_name_stays(names[k]);
    }
    lemma_split_of_join(names, '/');
    assert forall|i: int| 0 <= i < text.len() implies #[trigger] text[i] != '\\' by {
        lemma_joined_chars(names, i);
    }
    assert(replaced(text, '\\', '/') =~= text);
    lemma_plain_names_stay(names, names.len() as int);
    assert(names.take(names.len() as int) =~= names);
}

proof fn lemma_member_is_plain()
    ensures
        is_plain_name("member"@),
        joined(seq!["member"@], seq!['/']) == "member"@,
{
    reveal_strlit("member");
    let s = "member"@;
    assert forall|i: int| 0 <= i < s.len() implies is_plain_char(#[trigger] s[i]) by {
        if i == 0 {
        } else if i == 1 {
        } else if i == 2 {
        } else if i == 3 {
        } else if i == 4 {
        }
    }
    assert forall|i: int, j: int|
        #![trigger s[i], s[j]]
        0 <= i && j == i + 1 && j < s.len() implies s[i] != '_' || s[j] != '_' by {
        if i == 0 {
        } else if i == 1 {
        } else if i == 2 {
        } else if i == 3 {
        }
    }
}

/// The identity of a member is made of plain names, one at least, with slashes
/// between them; where none is left of it, it is `member`.
pub proof fn law_identity_is_plain(value: Seq<char>)
    ensures
        member_identity(value).len() > 0,
        pieces(member_identity(value), CharClass::Is('/')).len() > 0,
        forall|k: int|
            0 <= k < pieces(member_identity(value), CharClass::Is('/')).len() ==> is_plain_name(
                #[trigger] pieces(member_identity(value), CharClass::Is('/'))[k],
            ),
        identity_names(value).len() == 0 ==> member_identity(value) == "member"@,
        identity_names(value).len() > 0 ==> pieces(member_identity(value), CharClass::Is('/'))
            == identity_names(value),
{
    let segments = pieces(replaced(value, '\\', '/'), CharClass::Is('/'));
    let names = identity_names(value);
    lemma_names_are_plain(segments, segments.len() as int);
    if names.len() == 0 {
        lemma_member_is_plain();
        lemma_identity_of_names(seq!["member"@]);
    } else {
        lemma_identity_of_names(names);
        assert(is_plain_name(names[0]));
        if member_identity(value).len() == 0 {
            assert(member_identity(value) =~= Seq::empty());
            assert(pieces(member_identity(value), CharClass::Is('/'))[0].len() == 0);
        }
    }
}

/// The identity of an identity is the identity itself.
pub proof fn law_identity_is_stable(value: Seq<char>)
    ensures
        member_identity(member_identity(value)) == member_identity(value),
{
    let segments = pieces(replaced(value, '\\', '/'), CharClass::Is('/'));
    let names = identity_names(value);
    lemma_names_are_plain(segments, segments.len() as int);
    if names.len() == 0 {
        lemma_member_is_plain();
        lemma_identity_of_names(seq!["member"@]);
    } else {
        lemma_identity_of_names(names);
    }
}

// ---------------------------------------------------------------------------
// Families
// ---------------------------------------------------------------------------

/// Whether two endings differ, counted from their ends.
spec fn told_apart(a: Seq<char>, b: Seq<char>) -> bool {
    exists|m: int| differ_at(a, b, m)
}

spec fn differ_at(a: Seq<char>, b: Seq<char>, m: int) -> bool {
    0 <= m < a.len() && m < b.len() && a[a.len() - 1 - m] != b[b.len() - 1 - m]
}

proof fn lemma_extension_is_listed(name: Seq<char>, n: int)
    requires
        0 <= n <= archive_extensions().len(),
        longest_extension(name, n) is Some,
    ensures
        archive_extensions().contains(longest_extension(name, n)->0),
    decreases n,
{
    let ext = archive_extensions()[n - 1];
    let before = longest_extension(name, n - 1);
    if !(ends_with(name, ext) && (before is None || ext.len() > before->0.len())) {
        lemma_extension_is_listed(name, n - 1);
    }
}

/// The extension of a name that ends with one which is told apart from all
/// others is that one.
proof fn lemma_extension_exactly(base: Seq<char>, k: int)
    requires
        0 <= k < archive_extensions().len(),
        forall|j: int|
            0 <= j < archive_extensions().len() && j != k ==> told_apart(
                archive_extensions()[k],
                #[trigger] archive_extensions()[j],
            ),
    ensures
        archive_extension(base + archive_extensions()[k]) == Some(archive_extensions()[k]),
{
    let all = archive_extensions();
    let name = base + all[k];
    lemma_ends(base, all[k]);
    law_archive_extension_is_longest(name, k);
    lemma_extension_is_listed(name, all.len() as int);
    let found = archive_extension(name)->0;
    let j = choose|j: int| 0 <= j < all.len() && all[j] == found;
    if j != k {
        assert(told_apart(all[k], all[j]));
        let m = choose|m: int| differ_at(all[k], all[j], m);
        lemma_endings_agree(name, all[k], all[j], m);
    }
}

proof fn lemma_told_zip(j: int)
    requires
        0 <= j < 18,
        j != 5,
    ensures
        told_apart(".zip"@, archive_extensions()[j]),
{
    reveal_strlit(".tar.gz");
    reveal_strlit(".tar.xz");
    reveal_strlit(".tar.bz2");
    reveal_strlit(".zip+txt");
    reveal_strlit(".img.raw");
    reveal_strlit(".zip");
    reveal_strlit(".7z");
    reveal_strlit(".tar");
    reveal_strlit(".rar");
    reveal_strlit(".img");
    reveal_strlit(".iso");
    reveal_strlit(".raw");
    reveal_strlit(".bin");
    reveal_strlit(".dmg");
    reveal_strlit(".apk");
    reveal_strlit(".jar");
    reveal_strlit(".ovpn");
    reveal_strlit(".cpio");
    let a = ".zip"@;
    let b = archive_extensions()[j];
    if j == 0 {
        assert(differ_at(a, b, 0));
    }
    if j == 1 {
        assert(differ_at(a, b, 0));
    }
    if j == 2 {
        assert(differ_at(a, b, 0));
    }
    if j == 3 {
        assert(differ_at(a, b, 0));
    }
    if j == 4 {
        assert(differ_at(a, b, 0));
    }
    if j == 6 {
        assert(differ_at(a, b, 0));
    }
    if j == 7 {
        assert(differ_at(a, b, 0));
    }
    if j == 8 {
        assert(differ_at(a, b, 0));
    }
    if j == 9 {
        assert(differ_at(a, b, 0));
    }
    if j == 10 {
        assert(differ_at(a, b, 0));
    }
    if j == 11 {
        assert(differ_at(a, b, 0));
    }
    if j == 12 {
        assert(differ_at(a, b, 0));
    }
    if j == 13 {
        assert(differ_at(a, b, 0));
    }
    if j == 14 {
        assert(differ_at(a, b, 0));
    }
    if j == 15 {
        assert(differ_at(a, b, 0));
    }
    if j == 16 {
        assert(differ_at(a, b, 0));
    }
    if j == 17 {
        assert(differ_at(a, b, 0));
    }
}

proof fn lemma_told_tar_gz(j: int)
    requires
        0 <= j < 18,
        j != 0,
    ensures
        told_apart(".tar.gz"@, archive_extensions()[j]),
{
    reveal_strlit(".tar.gz");
    reveal_strlit(".tar.xz");
    reveal_strlit(".tar.bz2");
    reveal_strlit(".zip+txt");
    reveal_strlit(".img.raw");
    reveal_strlit(".zip");
    reveal_strlit(".7z");
    reveal_strlit(".tar");
    reveal_strlit(".rar");
    reveal_strlit(".img");
    reveal_strlit(".iso");
    reveal_strlit(".raw");
    reveal_strlit(".bin");
    reveal_strlit(".dmg");
    reveal_strlit(".apk");
    reveal_strlit(".jar");
    reveal_strlit(".ovpn");
    reveal_strlit(".cpio");
    let a = ".tar.gz"@;
    let b = archive_extensions()[j];
    if j == 1 {
        assert(differ_at(a, b, 1));
    }
    if j == 2 {
        assert(differ_at(a, b, 0));
    }
    if j == 3 {
        assert(differ_at(a, b, 0));
    }
    if j == 4 {
        assert(differ_at(a, b, 0));
    }
    if j == 5 {
        assert(differ_at(a, b, 0));
    }
    if j == 6 {
        assert(differ_at(a, b, 1));
    }
    if j == 7 {
        assert(differ_at(a, b, 0));
    }
    if j == 8 {
        assert(differ_at(a, b, 0));
    }
    if j == 9 {
        assert(differ_at(a, b, 0));
    }
    if j == 10 {
        assert(differ_at(a, b, 0));
    }
    if j == 11 {
        assert(differ_at(a, b, 0));
    }
    if j == 12 {
        assert(differ_at(a, b, 0));
    }
    if j == 13 {
        assert(differ_at(a, b, 0));
    }
    if j == 14 {
        assert(differ_at(a, b, 0));
    }
    if j == 15 {
        assert(differ_at(a, b, 0));
    }
    if j == 16 {
        assert(differ_at(a, b, 0));
    }
    if j == 17 {
        assert(differ_at(a, b, 0));
    }
}

proof fn lemma_told_iso(j: int)
    requires
        0 <= j < 18,
        j != 10,
    ensures
        told_apart(".iso"@, archive_extensions()[j]),
{
    reveal_strlit(".tar.gz");
    reveal_strlit(".tar.xz");
    reveal_strlit(".tar.bz2");
    reveal_strlit(".zip+txt");
    reveal_strlit(".img.raw");
    reveal_strlit(".zip");
    reveal_strlit(".7z");
    reveal_strlit(".tar");
    reveal_strlit(".rar");
    reveal_strlit(".img");
    reveal_strlit(".iso");
    reveal_strlit(".raw");
    reveal_strlit(".bin");
    reveal_strlit(".dmg");
    reveal_strlit(".apk");
    reveal_strlit(".jar");
    reveal_strlit(".ovpn");
    reveal_strlit(".cpio");
    let a = ".iso"@;
    let b = archive_extensions()[j];
    if j == 0 {
        assert(differ_at(a, b, 0));
    }
    if j == 1 {
        assert(differ_at(a, b, 0));
    }
    if j == 2 {
        assert(differ_at(a, b, 0));
    }
    if j == 3 {
        assert(differ_at(a, b, 0));
    }
    if j == 4 {
        assert(differ_at(a, b, 0));
    }
    if j == 5 {
        assert(differ_at(a, b, 0));
    }
    if j == 6 {
        assert(differ_at(a, b, 0));
    }
    if j == 7 {
        assert(differ_at(a, b, 0));
    }
    if j == 8 {
        assert(differ_at(a, b, 0));
    }
    if j == 9 {
        assert(differ_at(a, b, 0));
    }
    if j == 11 {
        assert(differ_at(a, b, 0));
    }
    if j == 12 {
        assert(differ_at(a, b, 0));
    }
    if j == 13 {
        assert(differ_at(a, b, 0));
    }
    if j == 14 {
        assert(differ_at(a, b, 0));
    }
    if j == 15 {
        assert(differ_at(a, b, 0));
    }
    if j == 16 {
        assert(differ_at(a, b, 0));
    }
    if j == 17 {
        assert(differ_at(a, b, 1));
    }
}

proof fn lemma_told_seven_zip(j: int)
    requires
        0 <= j < 18,
        j != 6,
    ensures
        told_apart(".7z"@, archive_extensions()[j]),
{
    reveal_strlit(".tar.gz");
    reveal_strlit(".tar.xz");
    reveal_strlit(".tar.bz2");
    reveal_strlit(".zip+txt");
    reveal_strlit(".img.raw");
    reveal_strlit(".zip");
    reveal_strlit(".7z");
    reveal_strlit(".tar");
    reveal_strlit(".rar");
    reveal_strlit(".img");
    reveal_strlit(".iso");
    reveal_strlit(".raw");
    reveal_strlit(".bin");
    reveal_strlit(".dmg");
    reveal_strlit(".apk");
    reveal_strlit(".jar");
    reveal_strlit(".ovpn");
    reveal_strlit(".cpio");
    let a = ".7z"@;
    let b = archive_extensions()[j];
    if j == 0 {
        assert(differ_at(a, b, 1));
    }
    if j == 1 {
        assert(differ_at(a, b, 1));
    }
    if j == 2 {
        assert(differ_at(a, b, 0));
    }
    if j == 3 {
        assert(differ_at(a, b, 0));
    }
    if j == 4 {
        assert(differ_at(a, b, 0));
    }
    if j == 5 {
        assert(differ_at(a, b, 0));
    }
    if j == 7 {
        assert(differ_at(a, b, 0));
    }
    if j == 8 {
        assert(differ_at(a, b, 0));
    }
    if j == 9 {
        assert(differ_at(a, b, 0));
    }
    if j == 10 {
        assert(differ_at(a, b, 0));
    }
    if j == 11 {
        assert(differ_at(a, b, 0));
    }
    if j == 12 {
        assert(differ_at(a, b, 0));
    }
    if j == 13 {
        assert(differ_at(a, b, 0));
    }
    if j == 14 {
        assert(differ_at(a, b, 0));
    }
    if j == 15 {
        assert(differ_at(a, b, 0));
    }
    if j == 16 {
        assert(differ_at(a, b, 0));
    }
    if j == 17 {
        assert(differ_at(a, b, 0));
    }
}

proof fn lemma_family_of_one(base: Seq<char>, k: int, plain: Seq<char>)
    requires
        0 <= k < archive_extensions().len(),
        forall|j: int|
            0 <= j < archive_extensions().len() && j != k ==> told_apart(
                archive_extensions()[k],
                #[trigger] archive_extensions()[j],
            ),
        archive_extensions()[k] == seq!['.'] + plain,
        plain.len() > 0,
        plain[0] != '.',
        ascii_lower(archive_extensions()[k]) == archive_extensions()[k],
        !archive_extensions()[k].contains('/'),
        base.len() > 0,
        ascii_lower(base) == base,
        !base.contains('/'),
        archive_extension(base) is None,
    ensures
        archive_family_of(base + archive_extensions()[k]) == Some(plain),
{
    let ext = archive_extensions()[k];
    let name = base + ext;
    lemma_extension_exactly(base, k);
    assert(ascii_lower(name) =~= ascii_lower(base) + ascii_lower(ext));
    assert(name.len() >= 3);
    assert(!name.contains('/')) by {
        if name.contains('/') {
            let i = name.index_of('/');
            if i < base.len() {
                assert(base.contains(base[i]));
            } else {
                assert(ext.contains(ext[i - base.len()]));
            }
        }
    }
    law_bare_name(name);
    assert(name[base.len() as int] == '.');
    lemma_has_extension(name, base.len() as int);
    assert(name.take(name.len() - ext.len()) =~= base);
    assert(family_parts(base) =~= Seq::empty());
    assert(ext.drop_first() =~= plain);
    assert(trimmed_start(ext, CharClass::Is('.')) == trimmed_start(plain, CharClass::Is('.')));
    assert(trimmed_start(plain, CharClass::Is('.')) == plain);
    assert(family_parts(name) =~= seq![plain]);
    assert(joined(seq![plain], seq!['.']) == plain);
}

/// A name with a dot behind its first character has an extension.
proof fn lemma_has_extension(name: Seq<char>, i: int)
    requires
        0 < i < name.len(),
        name[i] == '.',
    ensures
        name_extension(name) is Some,
    decreases name.len() - i,
{
    if forall|j: int| i < j < name.len() ==> #[trigger] name[j] != '.' {
        lemma_extension_dot(name, i);
    } else {
        let j = choose|j: int| i < j < name.len() && #[trigger] name[j] == '.';
        lemma_has_extension(name, j);
    }
}

/// The family of an archive is its extension without the dot, where nothing
/// before that is one of an archive.
pub proof fn law_family_of_an_archive(base: Seq<char>)
    requires
        base.len() > 0,
        ascii_lower(base) == base,
        !base.contains('/'),
        archive_extension(base) is None,
    ensures
        archive_family_of(base + ".zip"@) == Some("zip"@),
        archive_family_of(base + ".tar.gz"@) == Some("tar.gz"@),
        archive_family_of(base + ".iso"@) == Some("iso"@),
        archive_family_of(base + ".7z"@) == Some("7z"@),
{
    let all = archive_extensions();
    reveal_strlit(".zip");
    reveal_strlit("zip");
    assert(all[5] == ".zip"@);
    assert forall|j: int| 0 <= j < all.len() && j != 5 implies told_apart(
        all[5],
        #[trigger] all[j],
    ) by {
        lemma_told_zip(j);
    }
    assert(".zip"@ =~= seq!['.'] + "zip"@);
    assert(ascii_lower(".zip"@) =~= ".zip"@);
    lemma_family_of_one(base, 5, "zip"@);
    reveal_strlit(".tar.gz");
    reveal_strlit("tar.gz");
    assert(all[0] == ".tar.gz"@);
    assert forall|j: int| 0 <= j < all.len() && j != 0 implies told_apart(
        all[0],
        #[trigger] all[j],
    ) by {
        lemma_told_tar_gz(j);
    }
    assert(".tar.gz"@ =~= seq!['.'] + "tar.gz"@);
    assert(ascii_lower(".tar.gz"@) =~= ".tar.gz"@);
    lemma_family_of_one(base, 0, "tar.gz"@);
    reveal_strlit(".iso");
    reveal_strlit("iso");
    assert(all[10] == ".iso"@);
    assert forall|j: int| 0 <= j < all.len() && j != 10 implies told_apart(
        all[10],
        #[trigger] all[j],
    ) by {
        lemma_told_iso(j);
    }
    assert(".iso"@ =~= seq!['.'] + "iso"@);
    assert(ascii_lower(".iso"@) =~= ".iso"@);
    lemma_family_of_one(base, 10, "iso"@);
    reveal_strlit(".7z");
    reveal_strlit("7z");
    assert(all[6] == ".7z"@);
    assert forall|j: int| 0 <= j < all.len() && j != 6 implies told_apart(
        all[6],
        #[trigger] all[j],
    ) by {
        lemma_told_seven_zip(j);
    }
    assert(".7z"@ =~= seq!['.'] + "7z"@);
    assert(ascii_lower(".7z"@) =~= ".7z"@);
    lemma_family_of_one(base, 6, "7z"@);
}

/// What an archive holds is filed under its stem and its family.
pub proof fn law_contents_are_filed(what: Seq<char>, family: Seq<char>)
    ensures
        family.len() > 0 ==> filed_under(what, family) == what + "/@"@ + family,
        family.len() == 0 ==> filed_under(what, family) == what + "/"@,
{
}

/// A segment of a member's path is a name of its own; `.` and nothing are
/// passed over, and `..` takes the name before it back.
pub proof fn law_segments_of_a_member(segments: Seq<Seq<char>>, n: int)
    requires
        0 <= n < segments.len(),
    ensures
        stripped(segments[n]) == "."@ ==> member_names(segments, n + 1) == member_names(
            segments,
            n,
        ),
        stripped(segments[n]).len() == 0 ==> member_names(segments, n + 1) == member_names(
            segments,
            n,
        ),
        stripped(segments[n]) == ".."@ && member_names(segments, n).len() > 0 ==> member_names(
            segments,
            n + 1,
        ) == member_names(segments, n).drop_last(),
        stripped(segments[n]) == ".."@ && member_names(segments, n).len() == 0 ==> member_names(
            segments,
            n + 1,
        ).len() == 0,
{
    reveal_strlit(".");
    reveal_strlit("..");
    assert("."@.len() == 1 && ".."@.len() == 2);
}

// ---------------------------------------------------------------------------
// Stems
// ---------------------------------------------------------------------------

proof fn lemma_without_ascii(base: Seq<char>, tail: Seq<char>)
    requires
        forall|i: int| 0 <= i < tail.len() ==> (#[trigger] tail[i]) as u32 <= 0x7f,
    ensures
        without_bytes(base + tail, tail.len() as int) == Some(base),
    decreases tail.len(),
{
    if tail.len() > 0 {
        let init = tail.drop_last();
        assert((base + tail).last() == tail[tail.len() - 1]);
        assert((base + tail).drop_last() =~= base + init);
        assert forall|i: int| 0 <= i < init.len() implies (#[trigger] init[i]) as u32 <= 0x7f by {
            assert(init[i] == tail[i]);
        }
        lemma_without_ascii(base, init);
    } else {
        assert(base + tail =~= base);
    }
}

proof fn lemma_longest_cut(name: Seq<char>, lower: Seq<char>, len: int, stem: Seq<char>, n: int)
    requires
        0 <= n <= archive_extensions().len(),
        without_bytes(name, len) == Some(stem),
        forall|j: int|
            0 <= j < archive_extensions().len()
                && ends_with(lower, #[trigger] archive_extensions()[j])
                ==> archive_extensions()[j].len() <= len,
    ensures
        longest_cut(name, lower, n) matches Some(c) ==> c.0 <= len,
        (exists|j: int|
            0 <= j < n && ends_with(lower, #[trigger] archive_extensions()[j])
                && archive_extensions()[j].len() == len) ==> longest_cut(name, lower, n) == Some(
            (len, stem),
        ),
    decreases n,
{
    if n > 0 {
        lemma_longest_cut(name, lower, len, stem, n - 1);
        let ext = archive_extensions()[n - 1];
        if ends_with(lower, ext) {
            assert(ext.len() <= len);
        }
    }
}

/// The stem of an archive's name is what stands before its extension, in
/// whatever case that is written.
pub proof fn law_stem_of_an_archive(base: Seq<char>, tail: Seq<char>, k: int)
    requires
        0 <= k < archive_extensions().len(),
        base.len() > 0,
        base.last() != '.',
        is_name(base + tail),
        tail.len() == archive_extensions()[k].len(),
        forall|i: int| 0 <= i < tail.len() ==> (#[trigger] tail[i]) as u32 <= 0x7f,
        archive_extension(unicode_lower(base + tail)) == Some(archive_extensions()[k]),
        base + tail != seq!['.', '.'],
    ensures
        archive_stem(base + tail) == base,
{
    let name = base + tail;
    let lower = unicode_lower(name);
    let all = archive_extensions();
    let len = tail.len() as int;
    law_bare_name(name);
    lemma_without_ascii(base, tail);
    assert forall|j: int| 0 <= j < all.len()
        && ends_with(lower, #[trigger] all[j]) implies all[j].len()
        <= len by {
        law_archive_extension_is_longest(lower, j);
    }
    lemma_found_ends(lower, all.len() as int);
    assert(ends_with(lower, all[k]));
    lemma_longest_cut(name, lower, len, base, all.len() as int);
}

proof fn lemma_found_ends(name: Seq<char>, n: int)
    requires
        0 <= n <= archive_extensions().len(),
    ensures
        longest_extension(name, n) matches Some(ext) ==> ends_with(name, ext),
    decreases n,
{
    if n > 0 {
        lemma_found_ends(name, n - 1);
    }
}

/// A name with the extension of an archive is told by that, and any other by its
/// own extension.
pub proof fn law_extension_that_is_told(base: Seq<char>, name: Seq<char>, ext: Seq<char>)
    requires
        ascii_lower(base) == base,
    ensures
        archive_extension(ascii_lower(name)) is None ==> extension_signature(name, ext) == ext,
        extension_signature(base + ".zip"@, ext) == ".zip"@,
        extension_signature(base + ".tar.gz"@, ext) == ".tar.gz"@,
{
    let all = archive_extensions();
    reveal_strlit(".zip");
    reveal_strlit(".tar.gz");
    assert(all[5] == ".zip"@);
    assert(all[0] == ".tar.gz"@);
    assert forall|j: int| 0 <= j < all.len() && j != 5 implies told_apart(
        all[5],
        #[trigger] all[j],
    ) by {
        lemma_told_zip(j);
    }
    assert forall|j: int| 0 <= j < all.len() && j != 0 implies told_apart(
        all[0],
        #[trigger] all[j],
    ) by {
        lemma_told_tar_gz(j);
    }
    lemma_extension_exactly(base, 5);
    lemma_extension_exactly(base, 0);
    assert(ascii_lower(".zip"@) =~= ".zip"@);
    assert(ascii_lower(".tar.gz"@) =~= ".tar.gz"@);
    assert(ascii_lower(base + ".zip"@) =~= base + ".zip"@);
    assert(ascii_lower(base + ".tar.gz"@) =~= base + ".tar.gz"@);
}

/// A row of a scan that is named as an archive is stored, and any other
/// forgotten; what an earlier scan stored is forgotten at the end of a later one.
pub proof fn law_what_becomes_of_an_archive(row: FileRecord, stored_at: i64, scanned_at: i64)
    ensures
        names_archive(row.rel_path@) ==> row_step(row) == ArchiveRowStep::Store,
        !names_archive(row.rel_path@) ==> row_step(row) == ArchiveRowStep::Forget,
        stored_at >= scanned_at ==> !is_stale(stored_at, scanned_at),
        stored_at < scanned_at ==> is_stale(stored_at, scanned_at),
{
}

/// What an archive holds is told by the root of its family and its stem; by the
/// root alone where the stem says nothing, and not at all without a family.
pub proof fn law_signature_of_what_an_archive_holds(path: Seq<char>, family: Seq<char>)
    ensures
        payload_root(family) is None <==> payload_signature_of(path, family) is None,
        payload_root(family) matches Some(root) ==> component(archive_stem(path)).len() == 0
            ==> payload_signature_of(path, family) == Some(component(root)),
        payload_root(family) matches Some(root) ==> component(archive_stem(path)).len() > 0
            ==> payload_signature_of(path, family) == Some(
            component(root) + ":"@ + component(archive_stem(path)),
        ),
{
    reveal_strlit(":");
    if let Some(root) = payload_root(family) {
        law_names_in_descriptors(root);
        law_names_in_descriptors(archive_stem(path));
    }
}

} // verus!
