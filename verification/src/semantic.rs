//! Signatures of texts: what a text imports, defines and sets.

use crate::fingerprint::{
    clamp, clamped, component, component_of, is_low_signal, low_signal,
    DESCRIPTOR_MAX_COMPOSITE_LEN, DESCRIPTOR_MAX_KEY_TOKEN_LEN,
};
use crate::text::{
    before_first, byte_len, char_texts, contains_text, copy_chars, extend, extend_str, find_char,
    find_text, first_at, from_chars, has_prefix, join, joined, lines, lines_of, longer_than,
    opt_chars, pieces, same, slice, split, split_words, stands_at, starts_with, strip, stripped,
    take_before, texts, to_chars, trim, trim_prefix, trimmed, without_prefix, words, CharClass,
};
use crate::textmap::{lemma_sorted_set, lemma_sorted_set_unique, sort_distinct, sorted_set};
use vstd::prelude::*;

verus! {

// ---------------------------------------------------------------------------
// Parts of a line
// ---------------------------------------------------------------------------

/// The part of a text before the first `p`, or all of it.
pub open spec fn before_text(s: Seq<char>, p: Seq<char>) -> Seq<char> {
    if contains_text(s, p) {
        s.take(choose|i: int| first_at(s, p, i))
    } else {
        s
    }
}

/// The part of a text behind the first `p`.
pub open spec fn after_text(s: Seq<char>, p: Seq<char>) -> Option<Seq<char>> {
    if contains_text(s, p) {
        Some(s.skip((choose|i: int| first_at(s, p, i)) + p.len()))
    } else {
        None
    }
}

proof fn lemma_first_at(s: Seq<char>, p: Seq<char>, i: int)
    requires
        first_at(s, p, i),
    ensures
        contains_text(s, p),
        before_text(s, p) == s.take(i),
        after_text(s, p) == Some(s.skip(i + p.len())),
{
    let j = choose|j: int| first_at(s, p, j);
    assert(first_at(s, p, j));
    if i < j {
        assert(!stands_at(s, p, i));
    } else if j < i {
        assert(!stands_at(s, p, j));
    }
}

fn take_before_text(s: &Vec<char>, p: &str) -> (r: Vec<char>)
    ensures
        r@ == before_text(s@, p@),
{
    match find_text(s, p) {
        Some(i) => {
            proof {
                lemma_first_at(s@, p@, i as int);
            }
            let r = slice(s, 0, i);
            assert(r@ =~= s@.take(i as int));
            r
        },
        None => copy_chars(s),
    }
}

fn take_after_text(s: &Vec<char>, p: &str) -> (r: Option<Vec<char>>)
    ensures
        opt_chars(r) == after_text(s@, p@),
{
    match find_text(s, p) {
        Some(i) => {
            proof {
                lemma_first_at(s@, p@, i as int);
            }
            let n: usize = to_chars(p).len();
            assert(i + n <= s.len());
            let r = slice(s, i + n, s.len());
            assert(r@ =~= s@.skip(i + n));
            Some(r)
        },
        None => None,
    }
}

/// The part of a text behind its last slash.
pub open spec fn last_segment(s: Seq<char>) -> Seq<char> {
    pieces(s, CharClass::Is('/')).last()
}

fn find_last_segment(s: &Vec<char>) -> (r: Vec<char>)
    ensures
        r@ == last_segment(s@),
{
    let parts = split(s, &CharClass::Is('/'));
    assert(char_texts(parts@).last() == parts@[parts@.len() - 1]@);
    copy_chars(&parts[parts.len() - 1])
}

// ---------------------------------------------------------------------------
// Imports
// ---------------------------------------------------------------------------

/// The name of an imported module: the first word of it, as a part of a
/// descriptor.
pub open spec fn import_name(module: Seq<char>) -> Seq<char> {
    before_first(component(module), '_')
}

fn import_name_of(module: &Vec<char>) -> (r: Vec<char>)
    ensures
        r@ == import_name(module@),
{
    let name = component_of(module);
    take_before(&name, '_')
}

/// A module that a Go line imports.
pub open spec fn go_module(line: Seq<char>) -> Seq<char> {
    trimmed(
        trimmed(stripped(without_prefix(line, "import"@)), CharClass::Is('"')),
        CharClass::Is('`'),
    )
}

/// A header that a C line takes in.
pub open spec fn c_header(line: Seq<char>) -> Seq<char> {
    trimmed(
        trimmed(
            trimmed(stripped(without_prefix(line, "#include"@)), CharClass::Is('<')),
            CharClass::Is('>'),
        ),
        CharClass::Is('"'),
    )
}

/// A module that a JavaScript line imports with `from`.
pub open spec fn js_import(line: Seq<char>) -> Option<Seq<char>> {
    if starts_with(line, "import "@) {
        match after_text(line.skip("import "@.len() as int), " from "@) {
            Some(rest) => Some(
                trimmed(trimmed(stripped(rest), CharClass::Is(';')), CharClass::Is('"')),
            ),
            None => None,
        }
    } else {
        None
    }
}

/// A module that a JavaScript line requires.
pub open spec fn js_require(line: Seq<char>) -> Option<Seq<char>> {
    match after_text(line, "require("@) {
        Some(rest) => Some(
            trimmed(
                trimmed(
                    before_first(before_text(rest, "require("@), ')'),
                    CharClass::Is('"'),
                ),
                CharClass::Is('\''),
            ),
        ),
        None => None,
    }
}

/// The module that a line imports.
pub open spec fn imported(line: Seq<char>, language: Seq<char>) -> Option<Seq<char>> {
    if language == "python"@ {
        if starts_with(line, "import "@) {
            Some(import_name(stripped(before_first(line.skip("import "@.len() as int), ','))))
        } else if starts_with(line, "from "@) {
            let rest = words(line.skip("from "@.len() as int), CharClass::Space);
            if rest.len() == 0 {
                None
            } else {
                Some(import_name(rest[0]))
            }
        } else {
            None
        }
    } else if language == "rust"@ {
        if starts_with(line, "use "@) {
            Some(import_name(before_text(line.skip("use "@.len() as int), "::"@)))
        } else {
            None
        }
    } else if language == "go"@ {
        if starts_with(line, "import "@) && go_module(line).len() > 0 {
            Some(import_name(last_segment(go_module(line))))
        } else {
            None
        }
    } else if language == "c_family"@ {
        if starts_with(line, "#include"@) && c_header(line).len() > 0 {
            Some(import_name(last_segment(c_header(line))))
        } else {
            None
        }
    } else if language == "javascript"@ {
        if js_import(line) is Some && js_import(line)->0.len() > 0 {
            Some(import_name(last_segment(js_import(line)->0)))
        } else if js_require(line) is Some && js_require(line)->0.len() > 0 {
            Some(import_name(last_segment(js_require(line)->0)))
        } else {
            None
        }
    } else {
        None
    }
}

proof fn lemma_languages()
    ensures
        "python"@ != "rust"@,
        "python"@ != "go"@,
        "python"@ != "c_family"@,
        "python"@ != "javascript"@,
        "rust"@ != "go"@,
        "rust"@ != "c_family"@,
        "rust"@ != "javascript"@,
        "go"@ != "c_family"@,
        "go"@ != "javascript"@,
        "c_family"@ != "javascript"@,
{
    reveal_strlit("python");
    reveal_strlit("rust");
    reveal_strlit("go");
    reveal_strlit("c_family");
    reveal_strlit("javascript");
    assert("python"@[0] == 'p');
    assert("rust"@[0] == 'r');
    assert("go"@[0] == 'g');
    assert("c_family"@[0] == 'c');
    assert("javascript"@[0] == 'j');
}

/// The part of a line behind a prefix that it has.
fn behind(line: &Vec<char>, prefix: &str) -> (r: Vec<char>)
    requires
        starts_with(line@, prefix@),
    ensures
        r@ == line@.skip(prefix@.len() as int),
{
    let p = to_chars(prefix);
    let r = slice(line, p.len(), line.len());
    assert(r@ =~= line@.skip(p@.len() as int));
    r
}

fn python_import(line: &Vec<char>) -> (r: Option<Vec<char>>)
    ensures
        opt_chars(r) == imported(line@, "python"@),
{
    if has_prefix(line, "import ") {
        let rest = behind(line, "import ");
        let first = take_before(&rest, ',');
        let module = strip(&first);
        Some(import_name_of(&module))
    } else if has_prefix(line, "from ") {
        let rest = behind(line, "from ");
        let parts = split_words(&rest, &CharClass::Space);
        assert(char_texts(parts@).len() == parts@.len());
        if parts.len() == 0 {
            None
        } else {
            assert(char_texts(parts@)[0] == parts@[0]@);
            Some(import_name_of(&parts[0]))
        }
    } else {
        None
    }
}

fn go_import(line: &Vec<char>) -> (r: Option<Vec<char>>)
    ensures
        opt_chars(r) == imported(line@, "go"@),
{
    proof {
        lemma_languages();
    }
    if !has_prefix(line, "import ") {
        return None;
    }
    let rest = trim_prefix(line, "import");
    let rest = strip(&rest);
    let rest = trim(&rest, &CharClass::Is('"'));
    let module = trim(&rest, &CharClass::Is('`'));
    if module.len() == 0 {
        return None;
    }
    let last = find_last_segment(&module);
    Some(import_name_of(&last))
}

fn c_import(line: &Vec<char>) -> (r: Option<Vec<char>>)
    ensures
        opt_chars(r) == imported(line@, "c_family"@),
{
    proof {
        lemma_languages();
    }
    if !has_prefix(line, "#include") {
        return None;
    }
    let rest = trim_prefix(line, "#include");
    let rest = strip(&rest);
    let rest = trim(&rest, &CharClass::Is('<'));
    let rest = trim(&rest, &CharClass::Is('>'));
    let header = trim(&rest, &CharClass::Is('"'));
    if header.len() == 0 {
        return None;
    }
    let last = find_last_segment(&header);
    Some(import_name_of(&last))
}

fn javascript_import(line: &Vec<char>) -> (r: Option<Vec<char>>)
    ensures
        opt_chars(r) == imported(line@, "javascript"@),
{
    proof {
        lemma_languages();
    }
    if has_prefix(line, "import ") {
        let rest = behind(line, "import ");
        match take_after_text(&rest, " from ") {
            Some(rest) => {
                let rest = strip(&rest);
                let rest = trim(&rest, &CharClass::Is(';'));
                let module = trim(&rest, &CharClass::Is('"'));
                if module.len() > 0 {
                    let last = find_last_segment(&module);
                    return Some(import_name_of(&last));
                }
            },
            None => {},
        }
    }
    match take_after_text(line, "require(") {
        Some(rest) => {
            let rest = take_before_text(&rest, "require(");
            let rest = take_before(&rest, ')');
            let rest = trim(&rest, &CharClass::Is('"'));
            let module = trim(&rest, &CharClass::Is('\''));
            if module.len() > 0 {
                let last = find_last_segment(&module);
                return Some(import_name_of(&last));
            }
        },
        None => {},
    }
    None
}

fn parse_import_like(line: &Vec<char>, language: &str) -> (r: Option<Vec<char>>)
    ensures
        opt_chars(r) == imported(line@, language@),
{
    proof {
        lemma_languages();
    }
    if same(language, "python") {
        python_import(line)
    } else if same(language, "rust") {
        if has_prefix(line, "use ") {
            let rest = behind(line, "use ");
            let module = take_before_text(&rest, "::");
            Some(import_name_of(&module))
        } else {
            None
        }
    } else if same(language, "go") {
        go_import(line)
    } else if same(language, "c_family") {
        c_import(line)
    } else if same(language, "javascript") {
        javascript_import(line)
    } else {
        None
    }
}

// ---------------------------------------------------------------------------
// Definitions, keys and sections
// ---------------------------------------------------------------------------

/// A name as a token, where it says something.
pub open spec fn token_of(name: Seq<char>) -> Option<Seq<char>> {
    if is_low_signal(component(name)) {
        None
    } else {
        Some(component(name))
    }
}

fn make_token(name: &Vec<char>) -> (r: Option<Vec<char>>)
    ensures
        opt_chars(r) == token_of(name@),
{
    let c = component_of(name);
    if low_signal(&c) {
        None
    } else {
        Some(c)
    }
}

/// The name that a definition with a keyword in front gives.
pub open spec fn keyword_definition(line: Seq<char>, keyword: Seq<char>) -> Option<Seq<char>> {
    let name = stripped(before_first(without_prefix(line, keyword), '('));
    if starts_with(line, keyword) && name.len() > 0 {
        token_of(name)
    } else {
        None
    }
}

fn find_keyword_definition(line: &Vec<char>, keyword: &str) -> (r: Option<Vec<char>>)
    ensures
        opt_chars(r) == keyword_definition(line@, keyword@),
{
    if !has_prefix(line, keyword) {
        return None;
    }
    let rest = trim_prefix(line, keyword);
    let first = take_before(&rest, '(');
    let name = strip(&first);
    if name.len() == 0 {
        return None;
    }
    make_token(&name)
}

/// The name of the function that a line defines.
pub open spec fn defined(line: Seq<char>, language: Seq<char>) -> Option<Seq<char>> {
    if language == "python"@ {
        keyword_definition(line, "def "@)
    } else if language == "rust"@ {
        keyword_definition(line, "fn "@)
    } else if language == "go"@ {
        keyword_definition(line, "func "@)
    } else if language == "c_family"@ {
        let names = words(stripped(before_first(line, '(')), CharClass::Space);
        if line.contains('(') && line.contains(')') && line.last() == '{' && names.len() > 0 {
            token_of(names.last())
        } else {
            None
        }
    } else {
        None
    }
}

fn parse_call_like(line: &Vec<char>, language: &str) -> (r: Option<Vec<char>>)
    ensures
        opt_chars(r) == defined(line@, language@),
{
    proof {
        lemma_languages();
    }
    if same(language, "python") {
        find_keyword_definition(line, "def ")
    } else if same(language, "rust") {
        find_keyword_definition(line, "fn ")
    } else if same(language, "go") {
        find_keyword_definition(line, "func ")
    } else if same(language, "c_family") {
        if find_char(line, '(').is_none() || find_char(line, ')').is_none() {
            return None;
        }
        assert(line@.contains('(') && line@.contains(')'));
        if line[line.len() - 1] != '{' {
            return None;
        }
        let first = take_before(line, '(');
        let first = strip(&first);
        let names = split_words(&first, &CharClass::Space);
        assert(char_texts(names@).len() == names@.len());
        if names.len() == 0 {
            return None;
        }
        assert(char_texts(names@).last() == names@[names@.len() - 1]@);
        make_token(&names[names.len() - 1])
    } else {
        None
    }
}

/// The part of a line that an equals sign or a colon assigns to.
pub open spec fn assigned(line: Seq<char>) -> Option<Seq<char>> {
    if line.contains('=') {
        Some(before_first(line, '='))
    } else if line.contains(':') {
        Some(before_first(line, ':'))
    } else {
        None
    }
}

/// The key that a line sets.
pub open spec fn key_set(line: Seq<char>) -> Option<Seq<char>> {
    match assigned(line) {
        Some(left) => {
            let key = trimmed(trimmed(stripped(left), CharClass::Is('"')), CharClass::Is('\''));
            if key.len() == 0 || byte_len(key) > DESCRIPTOR_MAX_KEY_TOKEN_LEN {
                None
            } else {
                token_of(key)
            }
        },
        None => None,
    }
}

fn parse_key_like(line: &Vec<char>) -> (r: Option<Vec<char>>)
    ensures
        opt_chars(r) == key_set(line@),
{
    let left = if find_char(line, '=').is_some() {
        assert(line@.contains('='));
        take_before(line, '=')
    } else if find_char(line, ':').is_some() {
        assert(line@.contains(':'));
        take_before(line, ':')
    } else {
        return None;
    };
    let key = strip(&left);
    let key = trim(&key, &CharClass::Is('"'));
    let key = trim(&key, &CharClass::Is('\''));
    if key.len() == 0 || longer_than(&key, DESCRIPTOR_MAX_KEY_TOKEN_LEN) {
        return None;
    }
    make_token(&key)
}

/// The section that a line opens.
pub open spec fn section_opened(line: Seq<char>) -> Option<Seq<char>> {
    let name = stripped(trimmed(trimmed(line, CharClass::Is('[')), CharClass::Is(']')));
    if line.len() > 0 && line[0] == '[' && line.last() == ']' && name.len() > 0 {
        token_of(name)
    } else {
        None
    }
}

fn parse_section_like(line: &Vec<char>) -> (r: Option<Vec<char>>)
    ensures
        opt_chars(r) == section_opened(line@),
{
    let n: usize = line.len();
    if n == 0 || line[0] != '[' || line[n - 1] != ']' {
        return None;
    }
    let name = trim(line, &CharClass::Is('['));
    let name = trim(&name, &CharClass::Is(']'));
    let name = strip(&name);
    if name.len() == 0 {
        return None;
    }
    make_token(&name)
}

// ---------------------------------------------------------------------------
// Signatures
// ---------------------------------------------------------------------------

/// The lines of a text that are read.
pub const MAX_LINES: usize = 512;

/// What the lines of a text hold.
#[derive(Clone, Copy, PartialEq, Eq, Structural)]
pub enum TokenKind {
    Import,
    Definition,
    Key,
    Section,
}

/// Whether a line is read: it is not empty and no comment.
pub open spec fn is_read(line: Seq<char>) -> bool {
    line.len() > 0 && line[0] != '#' && !starts_with(line, "//"@)
}

/// The token of a kind that a line holds. A line whose import says nothing
/// holds none.
pub open spec fn line_token(
    line: Seq<char>,
    language: Seq<char>,
    kind: TokenKind,
) -> Option<Seq<char>> {
    let t = stripped(line);
    let import = imported(t, language);
    if !is_read(t) || (import is Some && is_low_signal(import->0)) {
        None
    } else {
        match kind {
            TokenKind::Import => import,
            TokenKind::Definition => defined(t, language),
            TokenKind::Key => key_set(t),
            TokenKind::Section => section_opened(t),
        }
    }
}

/// The tokens of a kind in the first `n` lines.
pub open spec fn tokens_in(
    lines: Seq<Seq<char>>,
    n: int,
    language: Seq<char>,
    kind: TokenKind,
) -> Seq<Seq<char>>
    decreases n,
{
    if n <= 0 {
        Seq::empty()
    } else {
        match line_token(lines[n - 1], language, kind) {
            Some(t) => tokens_in(lines, n - 1, language, kind).push(t),
            None => tokens_in(lines, n - 1, language, kind),
        }
    }
}

/// The lines of a text that are read, at most.
pub open spec fn lines_read(content: Seq<char>) -> int {
    let all = lines_of(content);
    if all.len() <= MAX_LINES {
        all.len() as int
    } else {
        MAX_LINES as int
    }
}

/// The first `max` of the tokens, in order, behind a label; nothing where
/// there are none.
pub open spec fn token_list(label: Seq<char>, tokens: Seq<Seq<char>>, max: int) -> Seq<Seq<char>> {
    let all = sorted_set(tokens);
    let kept = if all.len() <= max {
        all
    } else {
        all.take(max)
    };
    if kept.len() == 0 {
        Seq::empty()
    } else {
        seq![label + joined(kept, seq!['+'])]
    }
}

/// The name of a text as a part of its signature.
pub open spec fn semantic_name(normalized_name: Seq<char>) -> Seq<char> {
    if normalized_name.len() == 0 || component(normalized_name).len() == 0 {
        "unnamed"@
    } else {
        component(normalized_name)
    }
}

/// The parts of a text's signature.
pub open spec fn semantic_parts(
    language: Seq<char>,
    normalized_name: Seq<char>,
    content: Seq<char>,
) -> Seq<Seq<char>> {
    let all = lines_of(content);
    let n = lines_read(content);
    seq![language + ":"@ + semantic_name(normalized_name)] + token_list(
        "i:"@,
        tokens_in(all, n, language, TokenKind::Import),
        4,
    ) + token_list("f:"@, tokens_in(all, n, language, TokenKind::Definition), 4) + token_list(
        "k:"@,
        tokens_in(all, n, language, TokenKind::Key),
        4,
    ) + token_list("s:"@, tokens_in(all, n, language, TokenKind::Section), 3)
}

/// The signature of a text.
pub open spec fn semantic_signature(
    language: Seq<char>,
    normalized_name: Seq<char>,
    content: Seq<char>,
) -> Seq<char> {
    clamped(
        joined(semantic_parts(language, normalized_name, content), seq!['|']),
        DESCRIPTOR_MAX_COMPOSITE_LEN as nat,
    )
}

/// The tokens of the lines read so far.
struct Tokens {
    imports: Vec<String>,
    definitions: Vec<String>,
    keys: Vec<String>,
    sections: Vec<String>,
}

impl Tokens {
    spec fn of(&self, lines: Seq<Seq<char>>, n: int, language: Seq<char>) -> bool {
        &&& texts(self.imports@) == tokens_in(lines, n, language, TokenKind::Import)
        &&& texts(self.definitions@) == tokens_in(lines, n, language, TokenKind::Definition)
        &&& texts(self.keys@) == tokens_in(lines, n, language, TokenKind::Key)
        &&& texts(self.sections@) == tokens_in(lines, n, language, TokenKind::Section)
    }
}

fn push_token(v: &mut Vec<String>, token: Option<Vec<char>>)
    ensures
        texts(final(v)@) == (match opt_chars(token) {
            Some(t) => texts(old(v)@).push(t),
            None => texts(old(v)@),
        }),
{
    match token {
        Some(t) => {
            let ghost before = texts(v@);
            let s = from_chars(&t);
            let ghost view = s@;
            v.push(s);
            assert(texts(v@) =~= before.push(view));
        },
        None => {},
    }
}

fn read_line(tokens: &mut Tokens, line: &Vec<char>, language: &str)
    ensures
        texts(final(tokens).imports@) == (match line_token(line@, language@, TokenKind::Import) {
            Some(t) => texts(old(tokens).imports@).push(t),
            None => texts(old(tokens).imports@),
        }),
        texts(final(tokens).definitions@) == (match line_token(
            line@,
            language@,
            TokenKind::Definition,
        ) {
            Some(t) => texts(old(tokens).definitions@).push(t),
            None => texts(old(tokens).definitions@),
        }),
        texts(final(tokens).keys@) == (match line_token(line@, language@, TokenKind::Key) {
            Some(t) => texts(old(tokens).keys@).push(t),
            None => texts(old(tokens).keys@),
        }),
        texts(final(tokens).sections@) == (match line_token(line@, language@, TokenKind::Section) {
            Some(t) => texts(old(tokens).sections@).push(t),
            None => texts(old(tokens).sections@),
        }),
{
    let t = strip(line);
    if t.len() == 0 || t[0] == '#' || has_prefix(&t, "//") {
        return;
    }
    let import = parse_import_like(&t, language);
    match &import {
        Some(module) => {
            if low_signal(module) {
                return;
            }
        },
        None => {},
    }
    push_token(&mut tokens.imports, import);
    let definition = parse_call_like(&t, language);
    push_token(&mut tokens.definitions, definition);
    let key = parse_key_like(&t);
    push_token(&mut tokens.keys, key);
    let section = parse_section_like(&t);
    push_token(&mut tokens.sections, section);
}

/// Adds the tokens, in order, behind a label to the parts of a signature.
fn push_list(parts: &mut Vec<Vec<char>>, label: &str, tokens: &Vec<String>, max: usize)
    ensures
        char_texts(final(parts)@) == char_texts(old(parts)@) + token_list(
            label@,
            texts(tokens@),
            max as int,
        ),
{
    let all = sort_distinct(tokens);
    let ghost order = texts(all@);
    assert(order.len() == all@.len());
    let n: usize = if all.len() <= max {
        all.len()
    } else {
        max
    };
    let mut kept: Vec<Vec<char>> = Vec::new();
    let mut i: usize = 0;
    while i < n
        invariant
            i <= n <= all@.len(),
            order == texts(all@),
            char_texts(kept@) =~= order.take(i as int),
        decreases n - i,
    {
        let ghost before = char_texts(kept@);
        let token = to_chars(all[i].as_str());
        let ghost t = token@;
        kept.push(token);
        proof {
            assert(order[i as int] == t);
            assert(char_texts(kept@) =~= before.push(t));
            assert(order.take(i as int + 1) =~= order.take(i as int).push(t));
        }
        i = i + 1;
    }
    proof {
        assert(order.take(order.len() as int) =~= order);
        reveal_strlit("+");
        assert("+"@ =~= seq!['+']);
    }
    let ghost start = char_texts(parts@);
    if n > 0 {
        let mut part = to_chars(label);
        let list = join(&kept, "+");
        extend(&mut part, &list);
        let ghost p = part@;
        parts.push(part);
        assert(char_texts(parts@) =~= start + seq![p]);
    } else {
        assert(start + Seq::<Seq<char>>::empty() =~= start);
    }
}

pub fn infer_semantic_text_signature_from_content(
    language: &str,
    normalized_name: &str,
    content: &str,
) -> (r: String)
    ensures
        r@ == semantic_signature(language@, normalized_name@, content@),
        r@.len() <= DESCRIPTOR_MAX_COMPOSITE_LEN,
{
    let chars = to_chars(content);
    let all = lines(&chars);
    let ghost texts_of = char_texts(all@);
    assert(texts_of.len() == all@.len());
    let n: usize = if all.len() <= MAX_LINES {
        all.len()
    } else {
        MAX_LINES
    };
    let mut tokens = Tokens {
        imports: Vec::new(),
        definitions: Vec::new(),
        keys: Vec::new(),
        sections: Vec::new(),
    };
    proof {
        assert(texts(tokens.imports@) =~= Seq::empty());
        assert(texts(tokens.definitions@) =~= Seq::empty());
        assert(texts(tokens.keys@) =~= Seq::empty());
        assert(texts(tokens.sections@) =~= Seq::empty());
    }
    let mut i: usize = 0;
    while i < n
        invariant
            i <= n <= all@.len(),
            texts_of == char_texts(all@),
            tokens.of(texts_of, i as int, language@),
        decreases n - i,
    {
        assert(texts_of[i as int] == all@[i as int]@);
        read_line(&mut tokens, &all[i], language);
        i = i + 1;
    }
    let mut first = to_chars(language);
    extend_str(&mut first, ":");
    let name_chars = to_chars(normalized_name);
    let name = component_of(&name_chars);
    if name_chars.len() == 0 || name.len() == 0 {
        extend_str(&mut first, "unnamed");
    } else {
        extend(&mut first, &name);
    }
    let mut parts: Vec<Vec<char>> = Vec::new();
    let ghost f = first@;
    parts.push(first);
    assert(char_texts(parts@) =~= seq![f]);
    push_list(&mut parts, "i:", &tokens.imports, 4);
    push_list(&mut parts, "f:", &tokens.definitions, 4);
    push_list(&mut parts, "k:", &tokens.keys, 4);
    push_list(&mut parts, "s:", &tokens.sections, 3);
    let text = join(&parts, "|");
    proof {
        reveal_strlit("|");
        assert("|"@ =~= seq!['|']);
    }
    let short = clamp(&text, DESCRIPTOR_MAX_COMPOSITE_LEN);
    from_chars(&short)
}

/// Whether the content of a file is worth reading for its signature: it is a
/// text in a known language, of a readable size.
pub open spec fn worth_reading(is_binary: bool, language: Seq<char>, size: u64) -> bool {
    !is_binary && language != "unknown"@ && language != "symlink"@ && size <= 262144
}

pub fn should_read_content(is_binary: bool, language: &str, size: u64) -> (r: bool)
    ensures
        r == worth_reading(is_binary, language@, size),
{
    !is_binary && !same(language, "unknown") && !same(language, "symlink") && size <= 262144
}

// ---------------------------------------------------------------------------
// Laws
// ---------------------------------------------------------------------------

proof fn lemma_tokens_in(
    lines: Seq<Seq<char>>,
    n: int,
    language: Seq<char>,
    kind: TokenKind,
    token: Seq<char>,
)
    requires
        n <= lines.len(),
    ensures
        tokens_in(lines, n, language, kind).contains(token) <==> exists|i: int|
            0 <= i < n && line_token(#[trigger] lines[i], language, kind) == Some(token),
    decreases n,
{
    if n > 0 {
        lemma_tokens_in(lines, n - 1, language, kind, token);
        let before = tokens_in(lines, n - 1, language, kind);
        let all = tokens_in(lines, n, language, kind);
        if all.contains(token) {
            let k = all.index_of(token);
            if k < before.len() {
                assert(before[k] == token);
                assert(before.contains(token));
            } else {
                assert(line_token(lines[n - 1], language, kind) == Some(token));
            }
        }
        if exists|i: int|
            0 <= i < n && line_token(#[trigger] lines[i], language, kind) == Some(token) {
            let i = choose|i: int|
                0 <= i < n && line_token(#[trigger] lines[i], language, kind) == Some(token);
            if i < n - 1 {
                assert(before.contains(token));
                let k = before.index_of(token);
                assert(all[k] == token);
            } else {
                assert(all[before.len() as int] == token);
            }
        }
    }
}

proof fn lemma_same_tokens(
    a: Seq<Seq<char>>,
    b: Seq<Seq<char>>,
    language: Seq<char>,
    kind: TokenKind,
)
    requires
        forall|l: Seq<char>| a.contains(l) <==> b.contains(l),
    ensures
        sorted_set(tokens_in(a, a.len() as int, language, kind)) == sorted_set(
            tokens_in(b, b.len() as int, language, kind),
        ),
{
    let s = tokens_in(a, a.len() as int, language, kind);
    let t = tokens_in(b, b.len() as int, language, kind);
    assert forall|token: Seq<char>| s.contains(token) <==> t.contains(token) by {
        lemma_tokens_in(a, a.len() as int, language, kind, token);
        lemma_tokens_in(b, b.len() as int, language, kind, token);
        if s.contains(token) {
            let i = choose|i: int|
                0 <= i < a.len() && line_token(#[trigger] a[i], language, kind) == Some(token);
            assert(a.contains(a[i]));
            assert(line_token(b[b.index_of(a[i])], language, kind) == Some(token));
        }
        if t.contains(token) {
            let i = choose|i: int|
                0 <= i < b.len() && line_token(#[trigger] b[i], language, kind) == Some(token);
            assert(b.contains(b[i]));
            assert(line_token(a[a.index_of(b[i])], language, kind) == Some(token));
        }
    }
    lemma_sorted_set(s);
    lemma_sorted_set_unique(sorted_set(s), t);
}

/// Of a text that is read to its end neither the order of the lines matters, nor
/// how often each of them stands in it.
pub proof fn law_order_of_lines_does_not_matter(
    language: Seq<char>,
    normalized_name: Seq<char>,
    a: Seq<char>,
    b: Seq<char>,
)
    requires
        lines_of(a).len() <= MAX_LINES,
        lines_of(b).len() <= MAX_LINES,
        forall|l: Seq<char>| lines_of(a).contains(l) <==> lines_of(b).contains(l),
    ensures
        semantic_signature(language, normalized_name, a) == semantic_signature(
            language,
            normalized_name,
            b,
        ),
        semantic_signature(language, normalized_name, a).len() <= DESCRIPTOR_MAX_COMPOSITE_LEN,
{
    let s = lines_of(a);
    let t = lines_of(b);
    lemma_same_tokens(s, t, language, TokenKind::Import);
    lemma_same_tokens(s, t, language, TokenKind::Definition);
    lemma_same_tokens(s, t, language, TokenKind::Key);
    lemma_same_tokens(s, t, language, TokenKind::Section);
}

/// The lines of a text in another order are the same lines.
pub proof fn law_lines_in_another_order(
    language: Seq<char>,
    normalized_name: Seq<char>,
    a: Seq<char>,
    b: Seq<char>,
)
    requires
        lines_of(a).len() <= MAX_LINES,
        lines_of(a).to_multiset() == lines_of(b).to_multiset(),
    ensures
        semantic_signature(language, normalized_name, a) == semantic_signature(
            language,
            normalized_name,
            b,
        ),
{
    broadcast use vstd::seq_lib::group_to_multiset_ensures;

    let s = lines_of(a);
    let t = lines_of(b);
    assert(s.len() == s.to_multiset().len());
    assert(t.len() == t.to_multiset().len());
    assert forall|l: Seq<char>| s.contains(l) <==> t.contains(l) by {
        assert(s.contains(l) <==> s.to_multiset().count(l) > 0);
        assert(t.contains(l) <==> t.to_multiset().count(l) > 0);
    }
    law_order_of_lines_does_not_matter(language, normalized_name, a, b);
}

} // verus!
