//! Laws of what the lines of a text tell of it.

use crate::fingerprint::{component, is_low_signal, token_text};
use crate::fingerprint_laws::{law_names_in_descriptors, lemma_one_word, lemma_split_at};
use crate::path::{names_something, path_names};
use crate::semantic::{
    after_text, defined, import_name, imported, key_set, last_segment, line_token, section_opened,
    semantic_parts, semantic_signature, token_list, token_of, tokens_in, worth_reading, TokenKind,
};
use crate::text::{
    ascii_lower, before_first, byte_len, contains_text, first_at, is_space, joined,
    lemma_pieces_concat, lemma_pieces_single, lines_of, pieces, stands_at, starts_with, stripped,
    trimmed, trimmed_end, trimmed_start, without_prefix, words, CharClass,
};
use crate::textmap::sorted_set;
use vstd::prelude::*;

verus! {

/// Whether a text neither starts nor ends with white space.
pub open spec fn is_trim(s: Seq<char>) -> bool {
    s.len() > 0 && !is_space(s[0]) && !is_space(s.last())
}

proof fn lemma_trim(s: Seq<char>)
    requires
        is_trim(s),
    ensures
        stripped(s) == s,
{
}

proof fn lemma_before(word: Seq<char>, rest: Seq<char>, c: char)
    requires
        !word.contains(c),
    ensures
        before_first(word + seq![c] + rest, c) == word,
        before_first(word, c) == word,
    decreases word.len(),
{
    let s = word + seq![c] + rest;
    if word.len() > 0 {
        let tail = word.drop_first();
        assert(word.contains(word[0]));
        assert(s[0] == word[0]);
        assert forall|i: int| 0 <= i < tail.len() implies tail[i] != c by {
            assert(word.contains(word[i + 1]));
        }
        lemma_before(tail, rest, c);
        assert(s.drop_first() =~= tail + seq![c] + rest);
        assert(word =~= seq![word[0]] + tail);
    } else {
        assert(s[0] == c);
        assert(word =~= Seq::empty());
    }
}

proof fn lemma_behind(lead: Seq<char>, rest: Seq<char>)
    ensures
        starts_with(lead + rest, lead),
        (lead + rest).skip(lead.len() as int) == rest,
{
    assert((lead + rest).subrange(0, lead.len() as int) =~= lead);
    assert((lead + rest).skip(lead.len() as int) =~= rest);
}

/// A Python line imports the first module that stands behind `import`.
pub proof fn law_python_imports(module: Seq<char>, rest: Seq<char>)
    requires
        is_trim(module),
        !module.contains(','),
    ensures
        imported("import "@ + module, "python"@) == Some(import_name(module)),
        imported("import "@ + (module + seq![','] + rest), "python"@) == Some(import_name(module)),
{
    lemma_behind("import "@, module);
    lemma_behind("import "@, module + seq![','] + rest);
    lemma_before(module, rest, ',');
    lemma_trim(module);
}

/// A Rust line imports the crate or module that stands behind `use`, up to the
/// first pair of colons.
pub proof fn law_rust_imports(module: Seq<char>, rest: Seq<char>)
    requires
        !module.contains(':'),
    ensures
        imported("use "@ + (module + "::"@ + rest), "rust"@) == Some(import_name(module)),
        imported("use "@ + module, "rust"@) == Some(import_name(module)),
{
    reveal_strlit("python");
    reveal_strlit("rust");
    reveal_strlit("::");
    assert("python"@.len() != "rust"@.len());
    let sep = "::"@;
    let line = module + sep + rest;
    lemma_behind("use "@, line);
    lemma_behind("use "@, module);
    let n = module.len() as int;
    assert(line.subrange(n, n + 2) =~= sep);
    assert(stands_at(line, sep, n));
    assert(first_at(line, sep, n)) by {
        assert forall|j: int| 0 <= j < n implies !#[trigger] stands_at(line, sep, j) by {
            assert(line[j] == module[j]);
            assert(module.contains(module[j]));
            if stands_at(line, sep, j) {
                assert(line.subrange(j, j + 2)[0] == sep[0]);
            }
        }
    }
    let i = choose|i: int| first_at(line, sep, i);
    assert(i == n) by {
        if i < n {
            assert(!stands_at(line, sep, i));
        } else if n < i {
            assert(!stands_at(line, sep, n));
        }
    }
    assert(line.take(n) =~= module);
    if contains_text(module, sep) {
        let k = choose|k: int| #[trigger] stands_at(module, sep, k);
        assert(module.subrange(k, k + 2)[0] == sep[0]);
        assert(module.contains(module[k]));
    }
}

/// A line that defines a function tells its name, which stands between the
/// keyword of its language and the first bracket.
pub proof fn law_functions_are_told(name: Seq<char>, rest: Seq<char>)
    requires
        is_trim(name),
        !name.contains('('),
        !starts_with(name + seq!['('] + rest, "def "@),
        !starts_with(name + seq!['('] + rest, "fn "@),
        !starts_with(name + seq!['('] + rest, "func "@),
    ensures
        defined("def "@ + (name + seq!['('] + rest), "python"@) == token_of(name),
        defined("fn "@ + (name + seq!['('] + rest), "rust"@) == token_of(name),
        defined("func "@ + (name + seq!['('] + rest), "go"@) == token_of(name),
{
    reveal_strlit("python");
    reveal_strlit("rust");
    reveal_strlit("go");
    reveal_strlit("def ");
    reveal_strlit("fn ");
    reveal_strlit("func ");
    assert("python"@.len() == 6 && "rust"@.len() == 4 && "go"@.len() == 2);
    assert("def "@.len() == 4 && "fn "@.len() == 3 && "func "@.len() == 5);
    let line = name + seq!['('] + rest;
    lemma_behind("def "@, line);
    lemma_behind("fn "@, line);
    lemma_behind("func "@, line);
    lemma_before(name, rest, '(');
    lemma_trim(name);
    assert(without_prefix("def "@ + line, "def "@) == without_prefix(line, "def "@));
    assert(without_prefix("fn "@ + line, "fn "@) == without_prefix(line, "fn "@));
    assert(without_prefix("func "@ + line, "func "@) == without_prefix(line, "func "@));
}

/// A line that sets a key tells the key, which stands before the first equals
/// sign, or before the first colon where there is none.
pub proof fn law_keys_are_told(key: Seq<char>, value: Seq<char>)
    requires
        is_trim(key),
        byte_len(key) <= 32,
        !key.contains('='),
        !key.contains(':'),
        key[0] != '"' && key[0] != '\'',
        key.last() != '"' && key.last() != '\'',
    ensures
        key_set(key + seq!['='] + value) == token_of(key),
        !value.contains('=') ==> key_set(key + seq![':'] + value) == token_of(key),
{
    lemma_before(key, value, '=');
    lemma_before(key, value, ':');
    lemma_trim(key);
    let a = key + seq!['='] + value;
    assert(a[key.len() as int] == '=');
    let b = key + seq![':'] + value;
    assert(b[key.len() as int] == ':');
    if b.contains('=') && !value.contains('=') {
        let i = b.index_of('=');
        if i < key.len() {
            assert(key[i] == '=');
        } else if i > key.len() {
            assert(value[i - key.len() - 1] == '=');
        }
    }
    assert(trimmed(key, CharClass::Is('"')) == key);
    assert(trimmed(key, CharClass::Is('\'')) == key);
}

/// A line in square brackets tells the section that they name.
pub proof fn law_sections_are_told(name: Seq<char>)
    requires
        is_trim(name),
        name[0] != '[' && name[0] != ']',
        name.last() != '[' && name.last() != ']',
    ensures
        section_opened(seq!['['] + name + seq![']']) == token_of(name),
{
    let line = seq!['['] + name + seq![']'];
    let open = CharClass::Is('[');
    let close = CharClass::Is(']');
    let rest = name + seq![']'];
    assert(line.drop_first() =~= rest);
    assert(rest[0] == name[0]);
    assert(trimmed_start(line, open) == trimmed_start(rest, open));
    assert(trimmed_start(rest, open) == rest);
    assert(rest.last() == ']');
    assert(trimmed_end(rest, open) == rest);
    assert(trimmed_start(rest, close) == rest);
    assert(rest.drop_last() =~= name);
    assert(trimmed_end(rest, close) == trimmed_end(name, close));
    assert(trimmed_end(name, close) == name);
    lemma_trim(name);
}

/// Lines that are empty or comments tell nothing.
pub proof fn law_comments_tell_nothing(line: Seq<char>, language: Seq<char>, kind: TokenKind)
    requires
        stripped(line).len() == 0 || stripped(line)[0] == '#' || starts_with(
            stripped(line),
            "//"@,
        ),
    ensures
        line_token(line, language, kind) is None,
{
}

/// A name is a token unless it says too little.
pub proof fn law_names_that_say_something(name: Seq<char>)
    ensures
        token_of(name) is Some ==> token_of(name) == Some(component(name)),
        token_of(name) is None <==> is_low_signal(component(name)),
        stripped(component(name)).len() == 0 ==> token_of(name) is None,
        ({
            let t = stripped(component(name));
            t == "tmp"@ || t == "var"@ || t == "key"@ || t == "val"@ || t == "cfg"@ || t == "data"@
                || t == "test"@ || t == "misc"@ || t == "none"@
        }) ==> token_of(name) is None,
{
    assert(byte_len(Seq::<char>::empty()) == 0);
    if stripped(component(name)).len() == 0 {
        assert(stripped(component(name)) =~= Seq::empty());
    }
}

/// The tokens of a kind stand behind their label, each once and in order, as
/// many as there is room for; where there are none, nothing stands.
pub proof fn law_tokens_behind_their_label(label: Seq<char>, tokens: Seq<Seq<char>>, max: int)
    requires
        max > 0,
    ensures
        tokens.len() == 0 ==> token_list(label, tokens, max).len() == 0,
        0 < sorted_set(tokens).len() <= max ==> token_list(label, tokens, max) == seq![
            label + joined(sorted_set(tokens), seq!['+']),
        ],
        sorted_set(tokens).len() > max ==> token_list(label, tokens, max) == seq![
            label + joined(sorted_set(tokens).take(max), seq!['+']),
        ],
{
}

/// The content of a file is read for its signature where it is a text in a
/// language that is known, of at most 256 KiB.
pub proof fn law_what_is_worth_reading(language: Seq<char>, size: u64)
    ensures
        !worth_reading(true, language, size),
        !worth_reading(false, "unknown"@, size),
        !worth_reading(false, "symlink"@, size),
        language != "unknown"@ && language != "symlink"@ ==> (worth_reading(false, language, size)
            <==> size <= 262_144),
{
}

proof fn lemma_untrimmed(s: Seq<char>, c: char)
    requires
        s.len() > 0,
        s[0] != c,
        s.last() != c,
    ensures
        trimmed(s, CharClass::Is(c)) == s,
{
}

proof fn lemma_unquoted(s: Seq<char>, c: char)
    requires
        s.len() > 0,
        s[0] != c,
        s.last() != c,
    ensures
        trimmed(seq![c] + s + seq![c], CharClass::Is(c)) == s,
{
    let all = seq![c] + s + seq![c];
    let class = CharClass::Is(c);
    let rest = s + seq![c];
    assert(all.drop_first() =~= rest);
    assert(rest[0] == s[0]);
    assert(trimmed_start(all, class) == trimmed_start(rest, class));
    assert(trimmed_start(rest, class) == rest);
    assert(rest.drop_last() =~= s);
    assert(rest.last() == c);
    assert(trimmed_end(rest, class) == trimmed_end(s, class));
    assert(trimmed_end(s, class) == s);
}

proof fn lemma_last_segment(dir: Seq<char>, name: Seq<char>)
    requires
        !name.contains('/'),
    ensures
        last_segment(dir + seq!['/'] + name) == name,
        last_segment(name) == name,
{
    let class = CharClass::Is('/');
    assert forall|i: int| 0 <= i < name.len() implies !class.has(#[trigger] name[i]) by {
        assert(name.contains(name[i]));
    }
    lemma_pieces_single(name, class);
    lemma_pieces_concat(dir, name, '/');
}

/// A Go line imports the last part of the path that it quotes.
pub proof fn law_go_imports(dir: Seq<char>, name: Seq<char>)
    requires
        dir.len() > 0,
        name.len() > 0,
        !name.contains('/'),
        dir[0] != '"' && dir[0] != '`',
        name.last() != '"' && name.last() != '`',
    ensures
        imported("import "@ + (seq!['"'] + (dir + seq!['/'] + name) + seq!['"']), "go"@) == Some(
            import_name(name),
        ),
{
    reveal_strlit("python");
    reveal_strlit("rust");
    reveal_strlit("go");
    reveal_strlit("import ");
    reveal_strlit("import");
    assert("python"@.len() == 6 && "rust"@.len() == 4 && "go"@.len() == 2);
    let path = dir + seq!['/'] + name;
    let quoted = seq!['"'] + path + seq!['"'];
    let line = "import "@ + quoted;
    lemma_behind("import "@, quoted);
    let lead = "import"@;
    let rest = seq![' '] + quoted;
    assert(line =~= lead + rest);
    lemma_behind(lead, rest);
    assert(rest[0] != lead[0]);
    assert(!starts_with(rest, lead)) by {
        if starts_with(rest, lead) {
            assert(rest.subrange(0, lead.len() as int)[0] == lead[0]);
        }
    }
    assert(without_prefix(line, lead) == without_prefix(rest, lead));
    assert(without_prefix(rest, lead) == rest);
    assert(stripped(rest) == quoted) by {
        assert(rest.drop_first() =~= quoted);
        assert(quoted[0] == '"');
        assert(quoted.last() == '"');
        assert(trimmed_start(rest, CharClass::Space) == trimmed_start(quoted, CharClass::Space));
        assert(trimmed_start(quoted, CharClass::Space) == quoted);
        assert(trimmed_end(quoted, CharClass::Space) == quoted);
    }
    assert(path[0] == dir[0]);
    assert(path.last() == name.last());
    lemma_unquoted(path, '"');
    lemma_untrimmed(path, '`');
    lemma_last_segment(dir, name);
}

proof fn lemma_behind_from(names: Seq<char>, rest: Seq<char>)
    requires
        !names.contains('f'),
    ensures
        after_text(names + " from "@ + rest, " from "@) == Some(rest),
{
    reveal_strlit(" from ");
    let sep = " from "@;
    let line = names + sep + rest;
    let n = names.len() as int;
    assert(line.subrange(n, n + 6) =~= sep);
    assert(stands_at(line, sep, n));
    assert forall|j: int| 0 <= j < n implies !#[trigger] stands_at(line, sep, j) by {
        if stands_at(line, sep, j) {
            assert(line.subrange(j, j + 6)[1] == sep[1]);
            assert(line[j + 1] == 'f');
            if j + 1 < n {
                assert(names.contains(names[j + 1]));
            } else {
                assert(line[j + 1] == sep[0]);
            }
        }
    }
    assert(first_at(line, sep, n));
    let i = choose|i: int| first_at(line, sep, i);
    assert(i == n) by {
        if i < n {
            assert(!stands_at(line, sep, i));
        } else if n < i {
            assert(!stands_at(line, sep, n));
        }
    }
    assert(line.skip(n + 6) =~= rest);
}

/// A JavaScript line imports the last part of what stands in quotes behind
/// `from`.
pub proof fn law_javascript_imports(names: Seq<char>, dir: Seq<char>, name: Seq<char>)
    requires
        !names.contains('f'),
        dir.len() > 0,
        name.len() > 0,
        !name.contains('/'),
        dir[0] != '"' && dir[0] != ';',
        name.last() != '"' && name.last() != ';',
    ensures
        imported(
            "import "@ + (names + " from "@ + (seq!['"'] + (dir + seq!['/'] + name) + seq!['"'])),
            "javascript"@,
        ) == Some(import_name(name)),
{
    reveal_strlit("python");
    reveal_strlit("rust");
    reveal_strlit("go");
    reveal_strlit("c_family");
    reveal_strlit("javascript");
    assert("python"@.len() == 6 && "rust"@.len() == 4 && "go"@.len() == 2 && "c_family"@.len() == 8
        && "javascript"@.len() == 10);
    let path = dir + seq!['/'] + name;
    let quoted = seq!['"'] + path + seq!['"'];
    lemma_behind("import "@, names + " from "@ + quoted);
    lemma_behind_from(names, quoted);
    assert(quoted[0] == '"');
    assert(quoted.last() == '"');
    lemma_trim(quoted);
    lemma_untrimmed(quoted, ';');
    assert(path[0] == dir[0]);
    assert(path.last() == name.last());
    lemma_unquoted(path, '"');
    lemma_last_segment(dir, name);
}

/// A line in no language that is known imports and defines nothing.
pub proof fn law_other_languages_tell_nothing(line: Seq<char>, language: Seq<char>)
    requires
        language != "python"@ && language != "rust"@ && language != "go"@,
        language != "c_family"@ && language != "javascript"@,
    ensures
        imported(line, language) is None,
        defined(line, language) is None,
{
}

/// A C line defines the function whose name is the last word before its first
/// bracket, where its body is opened in the same line.
pub proof fn law_c_functions_are_told(kind: Seq<char>, name: Seq<char>, rest: Seq<char>)
    requires
        is_trim(kind),
        is_trim(name),
        forall|i: int| 0 <= i < name.len() ==> !is_space(#[trigger] name[i]),
        !kind.contains('('),
        !name.contains('('),
        rest.len() > 0,
        rest.contains(')'),
        rest.last() == '{',
    ensures
        defined(kind + seq![' '] + name + seq!['('] + rest, "c_family"@) == token_of(name),
{
    reveal_strlit("python");
    reveal_strlit("rust");
    reveal_strlit("go");
    reveal_strlit("c_family");
    assert("python"@.len() == 6 && "rust"@.len() == 4 && "go"@.len() == 2);
    assert("c_family"@.len() == 8);
    let head = kind + seq![' '] + name;
    let line = head + seq!['('] + rest;
    assert(!head.contains('(')) by {
        if head.contains('(') {
            let i = head.index_of('(');
            if i < kind.len() {
                assert(kind.contains(kind[i]));
            } else if i > kind.len() {
                assert(name.contains(name[i - kind.len() - 1]));
            }
        }
    }
    lemma_before(head, rest, '(');
    assert(line[head.len() as int] == '(');
    let k = rest.index_of(')');
    assert(line[head.len() + 1 + k] == ')');
    assert(line.last() == '{');
    assert(head[0] == kind[0]);
    assert(head.last() == name.last());
    lemma_trim(head);
    lemma_split_at(kind, name, ' ', CharClass::Space);
    lemma_one_word(name, CharClass::Space);
    assert(words(head, CharClass::Space).last() == name);
}

/// The signature of a text names its language and the text; then the imports,
/// the functions, the keys and the sections, each kind behind its letter, at most
/// four of each, and three of the sections.
pub proof fn law_parts_of_a_signature(language: Seq<char>, name: Seq<char>, content: Seq<char>)
    requires
        component(name).len() > 0,
        lines_of(content).len() <= 512,
    ensures
        ({
            let all = lines_of(content);
            let n = all.len() as int;
            semantic_parts(language, name, content) == seq![language + ":"@ + component(name)]
                + token_list("i:"@, tokens_in(all, n, language, TokenKind::Import), 4)
                + token_list("f:"@, tokens_in(all, n, language, TokenKind::Definition), 4)
                + token_list("k:"@, tokens_in(all, n, language, TokenKind::Key), 4) + token_list(
                "s:"@,
                tokens_in(all, n, language, TokenKind::Section),
                3,
            )
        }),
        joined(semantic_parts(language, name, content), seq!['|']).len() <= 192
            ==> semantic_signature(language, name, content) == joined(
            semantic_parts(language, name, content),
            seq!['|'],
        ),
{
    law_names_in_descriptors(name);
    if name.len() == 0 {
        lemma_nothing_is_unnamed(name);
    }
}

proof fn lemma_nothing_is_unnamed(name: Seq<char>)
    requires
        name.len() == 0,
    ensures
        component(name).len() == 0,
{
    let class = CharClass::NotAlphanumeric;
    assert(name =~= Seq::empty());
    let parts = pieces(name, CharClass::Is('/'));
    reveal(Seq::filter);
    assert(path_names(name).len() == 0) by {
        assert(parts =~= seq![Seq::<char>::empty()]);
        let keep = |seg: Seq<char>| names_something(seg);
        assert(parts.drop_last() =~= Seq::<Seq<char>>::empty());
        assert(parts.drop_last().filter(keep).len() == 0);
        assert(!keep(parts.last()));
    }
    assert(ascii_lower(name) =~= Seq::empty());
    assert(pieces(name, class) =~= seq![Seq::<char>::empty()]);
    assert(words(name, class).len() == 0) by {
        let one = seq![Seq::<char>::empty()];
        let keep = |p: Seq<char>| p.len() > 0;
        assert(one.drop_last() =~= Seq::<Seq<char>>::empty());
        assert(one.drop_last().filter(keep).len() == 0);
        assert(!keep(one.last()));
    }
    assert(token_text(name).len() == 0);
}

/// Each line adds what it tells of a kind, and no line anything else.
pub proof fn law_lines_add_their_tokens(
    lines: Seq<Seq<char>>,
    n: int,
    language: Seq<char>,
    kind: TokenKind,
)
    requires
        0 <= n < lines.len(),
    ensures
        line_token(lines[n], language, kind) matches Some(t) ==> tokens_in(
            lines,
            n + 1,
            language,
            kind,
        ) == tokens_in(lines, n, language, kind).push(t),
        line_token(lines[n], language, kind) is None ==> tokens_in(lines, n + 1, language, kind)
            == tokens_in(lines, n, language, kind),
        tokens_in(lines, 0, language, kind).len() == 0,
{
}

} // verus!
