//! Laws of what a file's path and size tell of it.

use crate::archive::{
    archive_extension, archive_extensions, archive_token, family_words,
    law_archive_extension_is_longest, payload_root,
};
use crate::fingerprint::{
    binary_descriptor_of, binary_extension, binary_family, binary_signature_of, clamped, component,
    folder_hint, hash_hint, is_binary_file, is_date, is_noise_word, language_of, normal_folder,
    normal_name, parent_tail, profile_of, size_class_of, source_language, token_text, without_noise,
};
use crate::path::path_extension;
use crate::path_laws::{is_name, law_name_in_a_directory};
use crate::text::{
    all_digits, ascii_lower, contains_text, ends_with, is_alphanumeric, is_digit,
    lemma_pieces_concat, lemma_pieces_nonempty, lemma_pieces_single, pieces, replaced, stands_at,
    stripped, words, CharClass,
};
use vstd::prelude::*;

verus! {

// ---------------------------------------------------------------------------
// Sizes and kinds
// ---------------------------------------------------------------------------

/// The class of a size goes by the least of 4 KiB, 1 MiB, 10 MiB, 100 MiB and
/// 1 GiB that the size is within; nothing has a class of its own.
pub proof fn law_classes_of_sizes(size: u64)
    ensures
        size == 0 ==> size_class_of(size) == "0b"@,
        1 <= size <= 4_096 ==> size_class_of(size) == "small"@,
        4_097 <= size <= 1_048_576 ==> size_class_of(size) == "1m"@,
        1_048_577 <= size <= 10_485_760 ==> size_class_of(size) == "10m"@,
        10_485_761 <= size <= 104_857_600 ==> size_class_of(size) == "100m"@,
        104_857_601 <= size <= 1_073_741_824 ==> size_class_of(size) == "1g"@,
        1_073_741_825 <= size ==> size_class_of(size) == "large"@,
{
}

/// The extensions of binaries.
pub open spec fn binary_kinds() -> Seq<Seq<char>> {
    seq![
        "7z"@,
        "apk"@,
        "bin"@,
        "cc"@,
        "class"@,
        "cpio"@,
        "dmg"@,
        "dll"@,
        "elf"@,
        "exe"@,
        "img"@,
        "iso"@,
        "jar"@,
        "ko"@,
        "o"@,
        "obj"@,
        "ovpn"@,
        "pkg"@,
        "pyc"@,
        "raw"@,
        "so"@,
        "sys"@,
    ]
}

/// A file is binary that is an archive, has an extension of binaries, or lies
/// where binaries lie; a link never is.
pub proof fn law_what_is_binary(
    file_type: Seq<char>,
    before: Seq<char>,
    folder: Seq<char>,
    after: Seq<char>,
    k: int,
)
    requires
        file_type != "symlink"@,
        0 <= k < 22,
        folder == "/bin/"@ || folder == "/sbin/"@ || folder == "/usr/bin/"@ || folder
            == "/usr/sbin/"@ || folder == "/lib/"@,
    ensures
        is_binary_file(file_type, before, None, true),
        is_binary_file(file_type, before, Some(binary_kinds()[k]), false),
        ascii_lower(before) == before && ascii_lower(after) == after ==> is_binary_file(
            file_type,
            before + folder + after,
            None,
            false,
        ),
        !is_binary_file("symlink"@, before, Some(binary_kinds()[k]), true),
{
    reveal_strlit("/bin/");
    reveal_strlit("/sbin/");
    reveal_strlit("/usr/bin/");
    reveal_strlit("/usr/sbin/");
    reveal_strlit("/lib/");
    if ascii_lower(before) == before && ascii_lower(after) == after {
        let path = before + folder + after;
        let low = ascii_lower(path);
        let i = before.len() as int;
        assert(ascii_lower(folder) =~= folder);
        assert(low =~= ascii_lower(before) + ascii_lower(folder) + ascii_lower(after));
        assert(low.subrange(i, i + folder.len()) =~= folder);
        assert(stands_at(low, folder, i));
        assert(contains_text(low, folder));
    }
}

/// Nothing else is binary.
pub proof fn law_nothing_else_is_binary(
    file_type: Seq<char>,
    path: Seq<char>,
    ext: Option<Seq<char>>,
)
    requires
        is_binary_file(file_type, path, ext, false),
    ensures
        (ext is Some && binary_kinds().contains(ext->0)) || contains_text(
            ascii_lower(path),
            "/bin/"@,
        ) || contains_text(ascii_lower(path), "/sbin/"@) || contains_text(
            ascii_lower(path),
            "/usr/bin/"@,
        ) || contains_text(ascii_lower(path), "/usr/sbin/"@) || contains_text(
            ascii_lower(path),
            "/lib/"@,
        ),
{
    let all = binary_kinds();
    if ext is Some && binary_extension(ext->0) {
        let e = ext->0;
        assert(all[0] == "7z"@);
        assert(all[1] == "apk"@);
        assert(all[2] == "bin"@);
        assert(all[3] == "cc"@);
        assert(all[4] == "class"@);
        assert(all[5] == "cpio"@);
        assert(all[6] == "dmg"@);
        assert(all[7] == "dll"@);
        assert(all[8] == "elf"@);
        assert(all[9] == "exe"@);
        assert(all[10] == "img"@);
        assert(all[11] == "iso"@);
        assert(all[12] == "jar"@);
        assert(all[13] == "ko"@);
        assert(all[14] == "o"@);
        assert(all[15] == "obj"@);
        assert(all[16] == "ovpn"@);
        assert(all[17] == "pkg"@);
        assert(all[18] == "pyc"@);
        assert(all[19] == "raw"@);
        assert(all[20] == "so"@);
        assert(all[21] == "sys"@);
        assert(all.contains(e));
    }
}

// ---------------------------------------------------------------------------
// Languages
// ---------------------------------------------------------------------------

/// Where two endings both end a text, they agree from their ends on.
pub proof fn lemma_endings_agree(s: Seq<char>, a: Seq<char>, b: Seq<char>, k: int)
    requires
        ends_with(s, a),
        ends_with(s, b),
        0 <= k < a.len(),
        k < b.len(),
    ensures
        a[a.len() - 1 - k] == b[b.len() - 1 - k],
{
    let n = s.len() as int;
    assert(s.subrange(n - a.len(), n)[a.len() - 1 - k] == s[n - 1 - k]);
    assert(s.subrange(n - b.len(), n)[b.len() - 1 - k] == s[n - 1 - k]);
}

pub proof fn lemma_ends(stem: Seq<char>, ending: Seq<char>)
    ensures
        ends_with(stem + ending, ending),
{
    let s = stem + ending;
    assert(s.subrange(stem.len() as int, s.len() as int) =~= ending);
}

/// The endings of names that tell a language by themselves.
proof fn lemma_reveal_endings()
    ensures
        ".md"@ == seq!['.', 'm', 'd'],
        ".markdown"@ == seq!['.', 'm', 'a', 'r', 'k', 'd', 'o', 'w', 'n'],
        ".json"@ == seq!['.', 'j', 's', 'o', 'n'],
        ".toml"@ == seq!['.', 't', 'o', 'm', 'l'],
        ".yaml"@ == seq!['.', 'y', 'a', 'm', 'l'],
        ".yml"@ == seq!['.', 'y', 'm', 'l'],
        ".xml"@ == seq!['.', 'x', 'm', 'l'],
        ".html"@ == seq!['.', 'h', 't', 'm', 'l'],
        ".rs"@ == seq!['.', 'r', 's'],
        ".py"@ == seq!['.', 'p', 'y'],
        ".pyi"@ == seq!['.', 'p', 'y', 'i'],
{
    reveal_strlit(".md");
    assert(".md"@ =~= seq!['.', 'm', 'd']);
    reveal_strlit(".markdown");
    assert(".markdown"@ =~= seq!['.', 'm', 'a', 'r', 'k', 'd', 'o', 'w', 'n']);
    reveal_strlit(".json");
    assert(".json"@ =~= seq!['.', 'j', 's', 'o', 'n']);
    reveal_strlit(".toml");
    assert(".toml"@ =~= seq!['.', 't', 'o', 'm', 'l']);
    reveal_strlit(".yaml");
    assert(".yaml"@ =~= seq!['.', 'y', 'a', 'm', 'l']);
    reveal_strlit(".yml");
    assert(".yml"@ =~= seq!['.', 'y', 'm', 'l']);
    reveal_strlit(".xml");
    assert(".xml"@ =~= seq!['.', 'x', 'm', 'l']);
    reveal_strlit(".html");
    assert(".html"@ =~= seq!['.', 'h', 't', 'm', 'l']);
    reveal_strlit(".rs");
    assert(".rs"@ =~= seq!['.', 'r', 's']);
    reveal_strlit(".py");
    assert(".py"@ =~= seq!['.', 'p', 'y']);
    reveal_strlit(".pyi");
    assert(".pyi"@ =~= seq!['.', 'p', 'y', 'i']);
}

/// A name that ends as those of a language do is of that language, whatever its
/// extension, unless it is a readme.
pub proof fn law_endings_tell_languages(stem: Seq<char>, ext: Seq<char>)
    ensures
        language_of(stem + ".md"@, ext) == "markdown"@,
        language_of(stem + ".markdown"@, ext) == "markdown"@,
        !contains_text(stem + ".json"@, "/readme"@)
            ==> language_of(stem + ".json"@, ext) == "json"@,
        !contains_text(stem + ".toml"@, "/readme"@)
            ==> language_of(stem + ".toml"@, ext) == "config"@,
        !contains_text(stem + ".yaml"@, "/readme"@)
            ==> language_of(stem + ".yaml"@, ext) == "config"@,
        !contains_text(stem + ".yml"@, "/readme"@)
            ==> language_of(stem + ".yml"@, ext) == "config"@,
        !contains_text(stem + ".xml"@, "/readme"@)
            ==> language_of(stem + ".xml"@, ext) == "markup"@,
        !contains_text(stem + ".html"@, "/readme"@)
            ==> language_of(stem + ".html"@, ext) == "markup"@,
        !contains_text(stem + ".rs"@, "/readme"@) ==> language_of(stem + ".rs"@, ext) == "rust"@,
        !contains_text(stem + ".py"@, "/readme"@) ==> language_of(stem + ".py"@, ext) == "python"@,
        !contains_text(stem + ".pyi"@, "/readme"@)
            ==> language_of(stem + ".pyi"@, ext) == "python"@,
{
    lemma_reveal_endings();
    lemma_ends(stem, ".md"@);
    lemma_ends(stem, ".markdown"@);
    lemma_ends(stem, ".json"@);
    lemma_ends(stem, ".toml"@);
    lemma_ends(stem, ".yaml"@);
    lemma_ends(stem, ".yml"@);
    lemma_ends(stem, ".xml"@);
    lemma_ends(stem, ".html"@);
    lemma_ends(stem, ".rs"@);
    lemma_ends(stem, ".py"@);
    lemma_ends(stem, ".pyi"@);
    if ends_with(stem + ".json"@, ".md"@) {
        lemma_endings_agree(stem + ".json"@, ".json"@, ".md"@, 0);
    }
    if ends_with(stem + ".json"@, ".markdown"@) {
        lemma_endings_agree(stem + ".json"@, ".json"@, ".markdown"@, 1);
    }
    if ends_with(stem + ".toml"@, ".md"@) {
        lemma_endings_agree(stem + ".toml"@, ".toml"@, ".md"@, 0);
    }
    if ends_with(stem + ".toml"@, ".markdown"@) {
        lemma_endings_agree(stem + ".toml"@, ".toml"@, ".markdown"@, 0);
    }
    if ends_with(stem + ".toml"@, ".json"@) {
        lemma_endings_agree(stem + ".toml"@, ".toml"@, ".json"@, 0);
    }
    if ends_with(stem + ".yaml"@, ".md"@) {
        lemma_endings_agree(stem + ".yaml"@, ".yaml"@, ".md"@, 0);
    }
    if ends_with(stem + ".yaml"@, ".markdown"@) {
        lemma_endings_agree(stem + ".yaml"@, ".yaml"@, ".markdown"@, 0);
    }
    if ends_with(stem + ".yaml"@, ".json"@) {
        lemma_endings_agree(stem + ".yaml"@, ".yaml"@, ".json"@, 0);
    }
    if ends_with(stem + ".yml"@, ".md"@) {
        lemma_endings_agree(stem + ".yml"@, ".yml"@, ".md"@, 0);
    }
    if ends_with(stem + ".yml"@, ".markdown"@) {
        lemma_endings_agree(stem + ".yml"@, ".yml"@, ".markdown"@, 0);
    }
    if ends_with(stem + ".yml"@, ".json"@) {
        lemma_endings_agree(stem + ".yml"@, ".yml"@, ".json"@, 0);
    }
    if ends_with(stem + ".xml"@, ".md"@) {
        lemma_endings_agree(stem + ".xml"@, ".xml"@, ".md"@, 0);
    }
    if ends_with(stem + ".xml"@, ".markdown"@) {
        lemma_endings_agree(stem + ".xml"@, ".xml"@, ".markdown"@, 0);
    }
    if ends_with(stem + ".xml"@, ".json"@) {
        lemma_endings_agree(stem + ".xml"@, ".xml"@, ".json"@, 0);
    }
    if ends_with(stem + ".xml"@, ".toml"@) {
        lemma_endings_agree(stem + ".xml"@, ".xml"@, ".toml"@, 2);
    }
    if ends_with(stem + ".xml"@, ".yaml"@) {
        lemma_endings_agree(stem + ".xml"@, ".xml"@, ".yaml"@, 2);
    }
    if ends_with(stem + ".xml"@, ".yml"@) {
        lemma_endings_agree(stem + ".xml"@, ".xml"@, ".yml"@, 2);
    }
    if ends_with(stem + ".html"@, ".md"@) {
        lemma_endings_agree(stem + ".html"@, ".html"@, ".md"@, 0);
    }
    if ends_with(stem + ".html"@, ".markdown"@) {
        lemma_endings_agree(stem + ".html"@, ".html"@, ".markdown"@, 0);
    }
    if ends_with(stem + ".html"@, ".json"@) {
        lemma_endings_agree(stem + ".html"@, ".html"@, ".json"@, 0);
    }
    if ends_with(stem + ".html"@, ".toml"@) {
        lemma_endings_agree(stem + ".html"@, ".html"@, ".toml"@, 2);
    }
    if ends_with(stem + ".html"@, ".yaml"@) {
        lemma_endings_agree(stem + ".html"@, ".html"@, ".yaml"@, 2);
    }
    if ends_with(stem + ".html"@, ".yml"@) {
        lemma_endings_agree(stem + ".html"@, ".html"@, ".yml"@, 2);
    }
    if ends_with(stem + ".rs"@, ".md"@) {
        lemma_endings_agree(stem + ".rs"@, ".rs"@, ".md"@, 0);
    }
    if ends_with(stem + ".rs"@, ".markdown"@) {
        lemma_endings_agree(stem + ".rs"@, ".rs"@, ".markdown"@, 0);
    }
    if ends_with(stem + ".rs"@, ".json"@) {
        lemma_endings_agree(stem + ".rs"@, ".rs"@, ".json"@, 0);
    }
    if ends_with(stem + ".rs"@, ".toml"@) {
        lemma_endings_agree(stem + ".rs"@, ".rs"@, ".toml"@, 0);
    }
    if ends_with(stem + ".rs"@, ".yaml"@) {
        lemma_endings_agree(stem + ".rs"@, ".rs"@, ".yaml"@, 0);
    }
    if ends_with(stem + ".rs"@, ".yml"@) {
        lemma_endings_agree(stem + ".rs"@, ".rs"@, ".yml"@, 0);
    }
    if ends_with(stem + ".rs"@, ".xml"@) {
        lemma_endings_agree(stem + ".rs"@, ".rs"@, ".xml"@, 0);
    }
    if ends_with(stem + ".rs"@, ".html"@) {
        lemma_endings_agree(stem + ".rs"@, ".rs"@, ".html"@, 0);
    }
    if ends_with(stem + ".py"@, ".md"@) {
        lemma_endings_agree(stem + ".py"@, ".py"@, ".md"@, 0);
    }
    if ends_with(stem + ".py"@, ".markdown"@) {
        lemma_endings_agree(stem + ".py"@, ".py"@, ".markdown"@, 0);
    }
    if ends_with(stem + ".py"@, ".json"@) {
        lemma_endings_agree(stem + ".py"@, ".py"@, ".json"@, 0);
    }
    if ends_with(stem + ".py"@, ".toml"@) {
        lemma_endings_agree(stem + ".py"@, ".py"@, ".toml"@, 0);
    }
    if ends_with(stem + ".py"@, ".yaml"@) {
        lemma_endings_agree(stem + ".py"@, ".py"@, ".yaml"@, 0);
    }
    if ends_with(stem + ".py"@, ".yml"@) {
        lemma_endings_agree(stem + ".py"@, ".py"@, ".yml"@, 0);
    }
    if ends_with(stem + ".py"@, ".xml"@) {
        lemma_endings_agree(stem + ".py"@, ".py"@, ".xml"@, 0);
    }
    if ends_with(stem + ".py"@, ".html"@) {
        lemma_endings_agree(stem + ".py"@, ".py"@, ".html"@, 0);
    }
    if ends_with(stem + ".py"@, ".rs"@) {
        lemma_endings_agree(stem + ".py"@, ".py"@, ".rs"@, 0);
    }
    if ends_with(stem + ".pyi"@, ".md"@) {
        lemma_endings_agree(stem + ".pyi"@, ".pyi"@, ".md"@, 0);
    }
    if ends_with(stem + ".pyi"@, ".markdown"@) {
        lemma_endings_agree(stem + ".pyi"@, ".pyi"@, ".markdown"@, 0);
    }
    if ends_with(stem + ".pyi"@, ".json"@) {
        lemma_endings_agree(stem + ".pyi"@, ".pyi"@, ".json"@, 0);
    }
    if ends_with(stem + ".pyi"@, ".toml"@) {
        lemma_endings_agree(stem + ".pyi"@, ".pyi"@, ".toml"@, 0);
    }
    if ends_with(stem + ".pyi"@, ".yaml"@) {
        lemma_endings_agree(stem + ".pyi"@, ".pyi"@, ".yaml"@, 0);
    }
    if ends_with(stem + ".pyi"@, ".yml"@) {
        lemma_endings_agree(stem + ".pyi"@, ".pyi"@, ".yml"@, 0);
    }
    if ends_with(stem + ".pyi"@, ".xml"@) {
        lemma_endings_agree(stem + ".pyi"@, ".pyi"@, ".xml"@, 0);
    }
    if ends_with(stem + ".pyi"@, ".html"@) {
        lemma_endings_agree(stem + ".pyi"@, ".pyi"@, ".html"@, 0);
    }
    if ends_with(stem + ".pyi"@, ".rs"@) {
        lemma_endings_agree(stem + ".pyi"@, ".pyi"@, ".rs"@, 0);
    }
}

/// Whether a name ends as those of no language do, and is no readme.
pub open spec fn tells_nothing(name: Seq<char>) -> bool {
    &&& !contains_text(name, "/readme"@)
    &&& !ends_with(name, ".md"@)
    &&& !ends_with(name, ".markdown"@)
    &&& !ends_with(name, ".json"@)
    &&& !ends_with(name, ".toml"@)
    &&& !ends_with(name, ".yaml"@)
    &&& !ends_with(name, ".yml"@)
    &&& !ends_with(name, ".xml"@)
    &&& !ends_with(name, ".html"@)
    &&& !ends_with(name, ".rs"@)
    &&& !ends_with(name, ".py"@)
    &&& !ends_with(name, ".pyi"@)
}

/// Any other name is of the language of its extension, and of none that is
/// known where it has another extension.
pub proof fn law_extensions_tell_languages(name: Seq<char>, ext: Seq<char>)
    requires
        tells_nothing(name),
    ensures
        ext == "c"@ || ext == "h"@ || ext == "cc"@ || ext == "cpp"@ || ext == "cxx"@
            || ext == "m"@ || ext == "mm"@ ==> language_of(name, ext) == "c_family"@,
        ext == "go"@ ==> language_of(name, ext) == "go"@,
        ext == "java"@ || ext == "kt"@ || ext == "rb"@ || ext == "php"@ || ext == "lua"@
            || ext == "pl"@ ==> language_of(name, ext) == "script"@,
        ext == "js"@ || ext == "ts"@ || ext == "jsx"@ || ext == "tsx"@ || ext == "vue"@
            || ext == "svelte"@ ==> language_of(name, ext) == "javascript"@,
        ext == "sh"@ || ext == "bash"@ || ext == "zsh"@ || ext == "cmd"@ || ext == "ps1"@
            || ext == "bat"@ ==> language_of(name, ext) == "shell"@,
        ext != "c"@ && ext != "h"@ && ext != "cc"@ && ext != "cpp"@ && ext != "cxx"@
            && ext != "m"@ && ext != "mm"@ && ext != "go"@ && ext != "java"@ && ext != "kt"@
            && ext != "rb"@ && ext != "php"@ && ext != "lua"@ && ext != "pl"@
            && ext != "js"@ && ext != "ts"@ && ext != "jsx"@ && ext != "tsx"@
            && ext != "vue"@ && ext != "svelte"@ && ext != "sh"@ && ext != "bash"@
            && ext != "zsh"@ && ext != "cmd"@ && ext != "ps1"@ && ext != "bat"@
            ==> language_of(name, ext) == "unknown"@,
{
    reveal_strlit("c");
    reveal_strlit("h");
    reveal_strlit("cc");
    reveal_strlit("cpp");
    reveal_strlit("cxx");
    reveal_strlit("m");
    reveal_strlit("mm");
    reveal_strlit("go");
    reveal_strlit("java");
    reveal_strlit("kt");
    reveal_strlit("rb");
    reveal_strlit("php");
    reveal_strlit("lua");
    reveal_strlit("pl");
    reveal_strlit("js");
    reveal_strlit("ts");
    reveal_strlit("jsx");
    reveal_strlit("tsx");
    reveal_strlit("vue");
    reveal_strlit("svelte");
    reveal_strlit("sh");
    reveal_strlit("bash");
    reveal_strlit("zsh");
    reveal_strlit("cmd");
    reveal_strlit("ps1");
    reveal_strlit("bat");
    assert("c"@.len() == 1);
    assert("h"@.len() == 1);
    assert("cc"@.len() == 2);
    assert("cpp"@.len() == 3);
    assert("cxx"@.len() == 3);
    assert("m"@.len() == 1);
    assert("mm"@.len() == 2);
    assert("go"@.len() == 2);
    assert("java"@.len() == 4);
    assert("kt"@.len() == 2);
    assert("rb"@.len() == 2);
    assert("php"@.len() == 3);
    assert("lua"@.len() == 3);
    assert("pl"@.len() == 2);
    assert("js"@.len() == 2);
    assert("ts"@.len() == 2);
    assert("jsx"@.len() == 3);
    assert("tsx"@.len() == 3);
    assert("vue"@.len() == 3);
    assert("svelte"@.len() == 6);
    assert("sh"@.len() == 2);
    assert("bash"@.len() == 4);
    assert("zsh"@.len() == 3);
    assert("cmd"@.len() == 3);
    assert("ps1"@.len() == 3);
    assert("bat"@.len() == 3);
    assert("go"@[0] != "cc"@[0]);
    assert("go"@[0] != "mm"@[0]);
    assert("kt"@[0] != "cc"@[0]);
    assert("kt"@[0] != "mm"@[0]);
    assert("kt"@[0] != "go"@[0]);
    assert("rb"@[0] != "cc"@[0]);
    assert("rb"@[0] != "mm"@[0]);
    assert("rb"@[0] != "go"@[0]);
    assert("php"@[0] != "cpp"@[0]);
    assert("php"@[0] != "cxx"@[0]);
    assert("lua"@[0] != "cpp"@[0]);
    assert("lua"@[0] != "cxx"@[0]);
    assert("pl"@[0] != "cc"@[0]);
    assert("pl"@[0] != "mm"@[0]);
    assert("pl"@[0] != "go"@[0]);
    assert("js"@[0] != "cc"@[0]);
    assert("js"@[0] != "mm"@[0]);
    assert("js"@[0] != "go"@[0]);
    assert("js"@[0] != "kt"@[0]);
    assert("js"@[0] != "rb"@[0]);
    assert("js"@[0] != "pl"@[0]);
    assert("ts"@[0] != "cc"@[0]);
    assert("ts"@[0] != "mm"@[0]);
    assert("ts"@[0] != "go"@[0]);
    assert("ts"@[0] != "kt"@[0]);
    assert("ts"@[0] != "rb"@[0]);
    assert("ts"@[0] != "pl"@[0]);
    assert("jsx"@[0] != "cpp"@[0]);
    assert("jsx"@[0] != "cxx"@[0]);
    assert("jsx"@[0] != "php"@[0]);
    assert("jsx"@[0] != "lua"@[0]);
    assert("tsx"@[0] != "cpp"@[0]);
    assert("tsx"@[0] != "cxx"@[0]);
    assert("tsx"@[0] != "php"@[0]);
    assert("tsx"@[0] != "lua"@[0]);
    assert("vue"@[0] != "cpp"@[0]);
    assert("vue"@[0] != "cxx"@[0]);
    assert("vue"@[0] != "php"@[0]);
    assert("vue"@[0] != "lua"@[0]);
    assert("sh"@[0] != "cc"@[0]);
    assert("sh"@[0] != "mm"@[0]);
    assert("sh"@[0] != "go"@[0]);
    assert("sh"@[0] != "kt"@[0]);
    assert("sh"@[0] != "rb"@[0]);
    assert("sh"@[0] != "pl"@[0]);
    assert("sh"@[0] != "js"@[0]);
    assert("sh"@[0] != "ts"@[0]);
    assert("bash"@[0] != "java"@[0]);
    assert("zsh"@[0] != "cpp"@[0]);
    assert("zsh"@[0] != "cxx"@[0]);
    assert("zsh"@[0] != "php"@[0]);
    assert("zsh"@[0] != "lua"@[0]);
    assert("zsh"@[0] != "jsx"@[0]);
    assert("zsh"@[0] != "tsx"@[0]);
    assert("zsh"@[0] != "vue"@[0]);
    assert("cmd"@[1] != "cpp"@[1]);
    assert("cmd"@[1] != "cxx"@[1]);
    assert("cmd"@[0] != "php"@[0]);
    assert("cmd"@[0] != "lua"@[0]);
    assert("cmd"@[0] != "jsx"@[0]);
    assert("cmd"@[0] != "tsx"@[0]);
    assert("cmd"@[0] != "vue"@[0]);
    assert("ps1"@[0] != "cpp"@[0]);
    assert("ps1"@[0] != "cxx"@[0]);
    assert("ps1"@[1] != "php"@[1]);
    assert("ps1"@[0] != "lua"@[0]);
    assert("ps1"@[0] != "jsx"@[0]);
    assert("ps1"@[0] != "tsx"@[0]);
    assert("ps1"@[0] != "vue"@[0]);
    assert("bat"@[0] != "cpp"@[0]);
    assert("bat"@[0] != "cxx"@[0]);
    assert("bat"@[0] != "php"@[0]);
    assert("bat"@[0] != "lua"@[0]);
    assert("bat"@[0] != "jsx"@[0]);
    assert("bat"@[0] != "tsx"@[0]);
    assert("bat"@[0] != "vue"@[0]);
}

/// The language of a path goes by the path in lower case, and by its extension
/// in lower case.
pub proof fn law_language_of_a_path(path: Seq<char>)
    ensures
        path_extension(path) matches Some(ext) ==> source_language(path) == language_of(
            ascii_lower(path),
            ascii_lower(ext),
        ),
        path_extension(path) is None ==> source_language(path) == language_of(
            ascii_lower(path),
            Seq::empty(),
        ),
{
}

// ---------------------------------------------------------------------------
// Names
// ---------------------------------------------------------------------------

/// The words that tell copies and versions apart are noise, in whatever case.
pub proof fn law_words_of_copies_are_noise(token: Seq<char>)
    ensures
        ({
            let s = ascii_lower(stripped(token));
            s.len() == 0 || s == "final"@ || s == "copy"@ || s == "old"@ || s == "clean"@ || s
                == "backup"@ || s == "version"@
        }) ==> is_noise_word(token),
{
}

/// So are the letters of a version with its number, longer numbers, and dates.
pub proof fn law_numbers_of_versions_are_noise(token: Seq<char>, digits: Seq<char>)
    requires
        digits.len() > 0,
        all_digits(digits),
    ensures
        ascii_lower(stripped(token)) == "v"@ + digits ==> is_noise_word(token),
        ascii_lower(stripped(token)) == "rev"@ + digits ==> is_noise_word(token),
        ascii_lower(stripped(token)) == "r"@ + digits ==> is_noise_word(token),
        ascii_lower(stripped(token)) == digits && digits.len() >= 4 ==> is_noise_word(token),
{
    let s = ascii_lower(stripped(token));
    if s == "v"@ + digits {
        assert(s.subrange(0, "v"@.len() as int) =~= "v"@);
        assert(s.skip("v"@.len() as int) =~= digits);
    }
    if s == "rev"@ + digits {
        assert(s.subrange(0, "rev"@.len() as int) =~= "rev"@);
        assert(s.skip("rev"@.len() as int) =~= digits);
    }
    if s == "r"@ + digits {
        assert(s.subrange(0, "r"@.len() as int) =~= "r"@);
        assert(s.skip("r"@.len() as int) =~= digits);
    }
}

/// A date is a year, a month and a day, with a mark between them.
pub proof fn law_dates_are_noise(
    token: Seq<char>,
    year: Seq<char>,
    month: Seq<char>,
    day: Seq<char>,
    a: char,
    b: char,
)
    requires
        year.len() == 4 && month.len() == 2 && day.len() == 2,
        all_digits(year) && all_digits(month) && all_digits(day),
        a == '-' || a == '_' || a == '.',
        b == '-' || b == '_' || b == '.',
        ascii_lower(stripped(token)) == year + seq![a] + month + seq![b] + day,
    ensures
        is_noise_word(token),
{
    let s = ascii_lower(stripped(token));
    assert(s.subrange(0, 4) =~= year);
    assert(s.subrange(5, 7) =~= month);
    assert(s.subrange(8, 10) =~= day);
    assert(s[4] == a && s[7] == b);
    assert(is_date(s));
}

/// No other word of letters is.
pub proof fn law_other_words_are_kept(token: Seq<char>)
    requires
        is_noise_word(token),
        forall|i: int|
            0 <= i < ascii_lower(stripped(token)).len() ==> !is_digit(
                #[trigger] ascii_lower(stripped(token))[i],
            ),
    ensures
        ({
            let s = ascii_lower(stripped(token));
            s.len() == 0 || s == "final"@ || s == "copy"@ || s == "old"@ || s == "clean"@ || s
                == "backup"@ || s == "version"@
        }),
{
    let s = ascii_lower(stripped(token));
    if s.len() > 0 {
        assert(!is_digit(s[s.len() - 1]));
        if s.len() == 10 {
            assert(s.subrange(8, 10)[0] == s[8]);
        }
        if s.len() > "v"@.len() {
            assert(s.skip("v"@.len() as int)[s.len() - "v"@.len() - 1] == s[s.len() - 1]);
        }
        if s.len() > "rev"@.len() {
            assert(s.skip("rev"@.len() as int)[s.len() - "rev"@.len() - 1] == s[s.len() - 1]);
        }
        if s.len() > "r"@.len() {
            assert(s.skip("r"@.len() as int)[s.len() - "r"@.len() - 1] == s[s.len() - 1]);
        }
    }
}

/// What is left of words without the noise at their end is the start of them,
/// and ends with none; and all of it was noise that is gone.
pub proof fn law_noise_at_the_end_is_dropped(tokens: Seq<Seq<char>>)
    ensures
        without_noise(tokens).is_prefix_of(tokens),
        without_noise(tokens).len() > 0 ==> !is_noise_word(without_noise(tokens).last()),
        forall|i: int|
            without_noise(tokens).len() <= i < tokens.len() ==> is_noise_word(#[trigger] tokens[i]),
    decreases tokens.len(),
{
    if tokens.len() > 0 && is_noise_word(tokens.last()) {
        let init = tokens.drop_last();
        law_noise_at_the_end_is_dropped(init);
        assert forall|i: int| without_noise(tokens).len() <= i < tokens.len() implies is_noise_word(
            #[trigger] tokens[i],
        ) by {
            if i < init.len() {
                assert(is_noise_word(init[i]));
            }
        }
        assert(without_noise(tokens) =~= tokens.take(without_noise(tokens).len() as int));
    } else {
        assert(tokens =~= tokens.take(tokens.len() as int));
    }
}

pub proof fn lemma_split_at(a: Seq<char>, b: Seq<char>, c: char, class: CharClass)
    requires
        class.has(c),
    ensures
        pieces(a + seq![c] + b, class) == pieces(a, class) + pieces(b, class),
        words(a + seq![c] + b, class) == words(a, class) + words(b, class),
    decreases b.len(),
{
    let s = a + seq![c] + b;
    if b.len() == 0 {
        assert(s.drop_last() =~= a);
        assert(s.last() == c);
        assert(pieces(b, class) =~= seq![Seq::<char>::empty()]);
        assert(pieces(s, class) =~= pieces(a, class) + pieces(b, class));
    } else {
        let t = b.drop_last();
        lemma_split_at(a, t, c, class);
        assert(s.drop_last() =~= a + seq![c] + t);
        assert(s.last() == b.last());
        lemma_pieces_nonempty(t, class);
        let init = pieces(a + seq![c] + t, class);
        assert(init.last() == pieces(t, class).last());
        assert(pieces(s, class) =~= pieces(a, class) + pieces(b, class));
    }
    Seq::filter_distributes_over_add(
        pieces(a, class),
        pieces(b, class),
        |p: Seq<char>| p.len() > 0,
    );
}

pub proof fn lemma_one_word(s: Seq<char>, class: CharClass)
    requires
        s.len() > 0,
        forall|i: int| 0 <= i < s.len() ==> !class.has(#[trigger] s[i]),
    ensures
        words(s, class) == seq![s],
{
    lemma_pieces_single(s, class);
    let keep = |p: Seq<char>| p.len() > 0;
    reveal(Seq::filter);
    assert(seq![s].drop_last() =~= Seq::<Seq<char>>::empty());
    assert(seq![s].last() == s);
    assert(keep(s));
    assert(Seq::<Seq<char>>::empty().filter(keep) =~= Seq::empty());
    assert(seq![s].filter(keep) =~= seq![s]);
}

/// What separates the words of a name does not matter, nor does their case.
pub proof fn law_separators_do_not_matter(a: Seq<char>, b: Seq<char>, c: char, d: char)
    requires
        !is_alphanumeric(c),
        !is_alphanumeric(d),
    ensures
        token_text(a + seq![c] + b) == token_text(a + seq![d] + b),
        token_text(ascii_lower(a)) == token_text(a),
{
    let class = CharClass::NotAlphanumeric;
    assert(ascii_lower(a + seq![c] + b) =~= ascii_lower(a) + seq![c] + ascii_lower(b));
    assert(ascii_lower(a + seq![d] + b) =~= ascii_lower(a) + seq![d] + ascii_lower(b));
    lemma_split_at(ascii_lower(a), ascii_lower(b), c, class);
    lemma_split_at(ascii_lower(a), ascii_lower(b), d, class);
    assert(ascii_lower(ascii_lower(a)) =~= ascii_lower(a));
}

/// A word at the end of a name that tells a copy or a version does not change
/// what the name is taken for.
pub proof fn law_copies_are_named_alike(name: Seq<char>, separator: char, word: Seq<char>)
    requires
        !is_alphanumeric(separator),
        word.len() > 0,
        forall|i: int| 0 <= i < word.len() ==> is_alphanumeric(#[trigger] word[i]),
        is_noise_word(ascii_lower(word)),
    ensures
        token_text(name + seq![separator] + word) == token_text(name),
{
    let class = CharClass::NotAlphanumeric;
    let low = ascii_lower(word);
    assert(ascii_lower(name + seq![separator] + word) =~= ascii_lower(name) + seq![separator]
        + low);
    lemma_split_at(ascii_lower(name), low, separator, class);
    assert forall|i: int| 0 <= i < low.len() implies !class.has(#[trigger] low[i]) by {
        assert(is_alphanumeric(word[i]));
    }
    lemma_one_word(low, class);
    let all = words(ascii_lower(name), class);
    assert(all + seq![low] =~= all.push(low));
    assert(all.push(low).drop_last() =~= all);
}

/// A text that is cut is the start of it, and whole where there is room.
pub proof fn law_cut_texts_keep_their_start(s: Seq<char>, max: nat)
    ensures
        clamped(s, max).is_prefix_of(s),
        clamped(s, max).len() <= max,
        s.len() <= max ==> clamped(s, max) == s,
        s.len() > max ==> clamped(s, max).len() == max,
{
    assert(clamped(s, max) =~= s.take(clamped(s, max).len() as int));
}

/// A name in a descriptor is its normal form, of which at most 48 characters
/// stand; a name that says nothing is left out.
pub proof fn law_names_in_descriptors(value: Seq<char>)
    ensures
        component(value).is_prefix_of(normal_name(value)),
        component(value).len() <= 48,
        normal_name(value) == "unnamed"@ ==> component(value).len() == 0,
        normal_name(value) != "unnamed"@ && normal_name(value).len() <= 48 ==> component(value)
            == normal_name(value),
{
    law_cut_texts_keep_their_start(normal_name(value), 48);
    assert(Seq::<char>::empty() =~= normal_name(value).take(0));
}

/// The start of a hash stands for it, and that there is none where there is
/// none.
pub proof fn law_hint_of_a_hash(hash: Seq<char>)
    ensures
        0 < hash.len() <= 10 ==> hash_hint(Some(hash)) == hash,
        hash.len() > 10 ==> hash_hint(Some(hash)) == hash.take(10),
        hash.len() == 0 ==> hash_hint(Some(hash)) == "nohash"@,
        hash_hint(None) == "nohash"@,
{
}

// ---------------------------------------------------------------------------
// Profiles
// ---------------------------------------------------------------------------

/// Of a link only its folder is told.
pub proof fn law_profile_of_a_link(rel_path: Seq<char>, size: u64, hash: Option<Seq<char>>)
    ensures
        ({
            let p = profile_of(rel_path, "symlink"@, size, hash);
            &&& p.normalized_name == "symlink"@
            &&& p.language == "symlink"@
            &&& p.size_class == "0b"@
            &&& p.ext.len() == 0
            &&& !p.is_binary && !p.is_archive
            &&& p.archive_family is None && p.archive_signature is None
            &&& p.binary_signature is None && p.binary_descriptor is None
            &&& p.text_signature is None
        }),
{
}

/// A file is binary or text: a binary has a signature and a descriptor, a text
/// of a known language has a signature of language and name; an archive, and
/// nothing else, has a family, and is binary.
pub proof fn law_profile_of_a_file(
    rel_path: Seq<char>,
    file_type: Seq<char>,
    size: u64,
    hash: Option<Seq<char>>,
)
    requires
        file_type != "symlink"@,
    ensures
        ({
            let p = profile_of(rel_path, file_type, size, hash);
            &&& p.size_class == size_class_of(size)
            &&& p.language == source_language(rel_path)
            &&& p.is_archive <==> p.archive_family is Some
            &&& p.is_archive ==> p.is_binary
            &&& p.is_binary <==> p.binary_signature is Some
            &&& p.is_binary <==> p.binary_descriptor is Some
            &&& p.text_signature is Some <==> !p.is_binary && p.language != "unknown"@
            &&& p.text_signature matches Some(t) ==> p.normalized_name.len() > 0 ==> t == p.language
                + ":"@ + p.normalized_name
            &&& p.archive_signature is Some ==> p.is_archive
            &&& path_extension(rel_path) matches Some(ext) ==> p.ext == ascii_lower(ext)
            &&& path_extension(rel_path) is None ==> p.ext.len() == 0
        }),
{
}

/// The signature of a binary is its kind, the class of its size and its folder,
/// with colons between them.
pub proof fn law_signature_of_a_binary(
    rel_path: Seq<char>,
    ext: Option<Seq<char>>,
    family: Option<Seq<char>>,
    size_class: Seq<char>,
)
    ensures
        ({
            let s = binary_family(ext, family) + ":"@ + size_class + ":"@ + folder_hint(rel_path);
            s.len() <= 192 ==> binary_signature_of(rel_path, ext, family, size_class) == s
        }),
        ({
            let s = binary_family(ext, family) + ":"@ + size_class + ":"@ + parent_tail(rel_path)
                + ":"@ + hash_hint(None);
            s.len() <= 192 ==> binary_descriptor_of(
                rel_path,
                ext,
                family,
                size_class,
                None,
                None,
            ) == s
        }),
{
}

/// The kind of a binary is the root of its archive family where it has one,
/// else its extension without the dot, else raw.
pub proof fn law_kind_of_a_binary(ext: Seq<char>, family: Seq<char>, root: Seq<char>)
    ensures
        payload_root(family) == Some(root) && component(root).len() > 0 ==> binary_family(
            Some(ext),
            Some(family),
        ) == component(root),
        ext.len() > 0 && ext[0] != '.' && component(ext).len() > 0 ==> binary_family(
            Some(ext),
            None,
        ) == component(ext),
        binary_family(None, None) == "raw"@,
{
}

// ---------------------------------------------------------------------------
// Archives
// ---------------------------------------------------------------------------

/// The extensions of archives, and no other.
pub proof fn law_extensions_of_archives()
    ensures
        archive_extensions().len() == 18,
        archive_extensions().contains(".tar.gz"@),
        archive_extensions().contains(".tar.xz"@),
        archive_extensions().contains(".tar.bz2"@),
        archive_extensions().contains(".zip+txt"@),
        archive_extensions().contains(".img.raw"@),
        archive_extensions().contains(".zip"@),
        archive_extensions().contains(".7z"@),
        archive_extensions().contains(".tar"@),
        archive_extensions().contains(".rar"@),
        archive_extensions().contains(".img"@),
        archive_extensions().contains(".iso"@),
        archive_extensions().contains(".raw"@),
        archive_extensions().contains(".bin"@),
        archive_extensions().contains(".dmg"@),
        archive_extensions().contains(".apk"@),
        archive_extensions().contains(".jar"@),
        archive_extensions().contains(".ovpn"@),
        archive_extensions().contains(".cpio"@),
{
    let all = archive_extensions();
    assert(all[0] == ".tar.gz"@);
    assert(all[1] == ".tar.xz"@);
    assert(all[2] == ".tar.bz2"@);
    assert(all[3] == ".zip+txt"@);
    assert(all[4] == ".img.raw"@);
    assert(all[5] == ".zip"@);
    assert(all[6] == ".7z"@);
    assert(all[7] == ".tar"@);
    assert(all[8] == ".rar"@);
    assert(all[9] == ".img"@);
    assert(all[10] == ".iso"@);
    assert(all[11] == ".raw"@);
    assert(all[12] == ".bin"@);
    assert(all[13] == ".dmg"@);
    assert(all[14] == ".apk"@);
    assert(all[15] == ".jar"@);
    assert(all[16] == ".ovpn"@);
    assert(all[17] == ".cpio"@);
}

/// A name with an extension of archives is that of an archive, whatever stands
/// before it.
pub proof fn law_names_of_archives(stem: Seq<char>, k: int)
    requires
        0 <= k < archive_extensions().len(),
    ensures
        archive_extension(stem + archive_extensions()[k]) is Some,
{
    let ext = archive_extensions()[k];
    lemma_ends(stem, ext);
    law_archive_extension_is_longest(stem + ext, k);
}

/// A raw image is filed as an image, and every other part of a family under its
/// own name; the first part of a family is its root.
pub proof fn law_root_of_a_family(family: Seq<char>, token: Seq<char>)
    ensures
        archive_token("raw"@) == "img"@,
        token != "raw"@ ==> archive_token(token) == token,
        family_words(family).len() == 0 <==> payload_root(family) is None,
        family_words(family).len() > 0 && family_words(family)[0] != "raw"@ ==> payload_root(family)
            == Some(family_words(family)[0]),
        family_words(family).len() > 0 && family_words(family)[0] == "raw"@ ==> payload_root(family)
            == Some("img"@),
{
}

// ---------------------------------------------------------------------------
// Folders
// ---------------------------------------------------------------------------

/// The folder that is told of a file goes by its directory alone: files of one
/// directory have the same.
pub proof fn law_files_of_one_directory(dir: Seq<char>, a: Seq<char>, b: Seq<char>)
    requires
        dir.len() > 0,
        is_name(a),
        is_name(b),
    ensures
        normal_folder(dir + seq!['/'] + a) == normal_folder(dir + seq!['/'] + b),
        !dir.contains('\\') && !a.contains('\\') && !b.contains('\\') ==> folder_hint(
            dir + seq!['/'] + a,
        ) == folder_hint(dir + seq!['/'] + b),
{
    law_name_in_a_directory(dir, a);
    law_name_in_a_directory(dir, b);
    if !dir.contains('\\') && !a.contains('\\') && !b.contains('\\') {
        lemma_folder_hint(dir, a);
        lemma_folder_hint(dir, b);
    }
}

proof fn lemma_folder_hint(dir: Seq<char>, name: Seq<char>)
    requires
        dir.len() > 0,
        is_name(name),
        !dir.contains('\\'),
        !name.contains('\\'),
    ensures
        component(pieces(dir, CharClass::Is('/')).last()).len() > 0 ==> folder_hint(
            dir + seq!['/'] + name,
        ) == component(pieces(dir, CharClass::Is('/')).last()),
        component(pieces(dir, CharClass::Is('/')).last()).len() == 0 ==> folder_hint(
            dir + seq!['/'] + name,
        ) == "."@,
{
    let class = CharClass::Is('/');
    let path = dir + seq!['/'] + name;
    assert(replaced(path, '\\', '/') =~= path) by {
        assert forall|i: int| 0 <= i < path.len() implies path[i] != '\\' by {
            if i < dir.len() {
                assert(dir.contains(dir[i]));
            } else if i > dir.len() {
                assert(name.contains(name[i - dir.len() - 1]));
            }
        }
    }
    lemma_pieces_concat(dir, name, '/');
    assert forall|i: int| 0 <= i < name.len() implies !class.has(#[trigger] name[i]) by {
        assert(name.contains(name[i]));
    }
    lemma_pieces_single(name, class);
    lemma_pieces_nonempty(dir, class);
    let all = pieces(path, class);
    assert(all[all.len() - 2] == pieces(dir, class).last());
}

/// A file lies in the folder that is told in its signature: the last one of its
/// path, in normal form.
pub proof fn law_folder_in_a_signature(above: Seq<char>, folder: Seq<char>, name: Seq<char>)
    requires
        above.len() > 0,
        is_name(folder),
        is_name(name),
        !above.contains('\\'),
        !folder.contains('\\'),
        !name.contains('\\'),
        component(folder).len() > 0,
    ensures
        folder_hint(above + seq!['/'] + folder + seq!['/'] + name) == component(folder),
{
    let class = CharClass::Is('/');
    let dir = above + seq!['/'] + folder;
    assert(!dir.contains('\\')) by {
        if dir.contains('\\') {
            let i = dir.index_of('\\');
            if i < above.len() {
                assert(above.contains(above[i]));
            } else if i > above.len() {
                assert(folder.contains(folder[i - above.len() - 1]));
            }
        }
    }
    lemma_pieces_concat(above, folder, '/');
    assert forall|i: int| 0 <= i < folder.len() implies !class.has(#[trigger] folder[i]) by {
        assert(folder.contains(folder[i]));
    }
    lemma_pieces_single(folder, class);
    lemma_folder_hint(dir, name);
}

} // verus!
