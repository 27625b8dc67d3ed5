//! Paths as text, read as Unix reads them: components between slashes, the
//! file name, its stem and its extension.

use crate::filter::{lemma_filter_start, lemma_filter_step};
use crate::text::{
    char_texts, copy_chars, extend, from_chars, join, joined, last_char_at, pieces, rfind_char,
    slice, split, to_chars, CharClass,
};
use vstd::prelude::*;

verus! {

/// A segment that names something: not empty, and not the current directory.
pub open spec fn names_something(seg: Seq<char>) -> bool {
    seg.len() > 0 && seg != seq!['.']
}

/// What stands in front of the named components: the root, or the current
/// directory where the path starts with it.
pub open spec fn path_anchor(p: Seq<char>) -> Seq<Seq<char>> {
    let first = pieces(p, CharClass::Is('/'))[0];
    if p.len() > 0 && p[0] == '/' {
        seq![seq!['/']]
    } else if first == seq!['.'] {
        seq![seq!['.']]
    } else {
        Seq::empty()
    }
}

/// The components of a path that name a file, a directory or a parent.
pub open spec fn path_names(p: Seq<char>) -> Seq<Seq<char>> {
    pieces(p, CharClass::Is('/')).filter(|seg: Seq<char>| names_something(seg))
}

/// The components of a path.
pub open spec fn path_components(p: Seq<char>) -> Seq<Seq<char>> {
    path_anchor(p) + path_names(p)
}

/// The path with its components between single slashes.
pub open spec fn slash_path(p: Seq<char>) -> Seq<char> {
    joined(path_components(p), seq!['/'])
}

/// The components of the directory that holds the path, where it has one.
pub open spec fn path_parent(p: Seq<char>) -> Option<Seq<Seq<char>>> {
    let all = path_components(p);
    if all.len() == 0 || (path_names(p).len() == 0 && p.len() > 0 && p[0] == '/') {
        None
    } else {
        Some(all.drop_last())
    }
}

/// The last component, where it names a file or a directory.
pub open spec fn path_file_name(p: Seq<char>) -> Option<Seq<char>> {
    let names = path_names(p);
    if names.len() == 0 || names.last() == seq!['.', '.'] {
        None
    } else {
        Some(names.last())
    }
}

/// The index of the last dot of a name, where something stands before it.
pub open spec fn extension_dot(name: Seq<char>) -> Option<int> {
    if exists|i: int| i > 0 && #[trigger] last_char_at(name, '.', i) {
        Some(choose|i: int| i > 0 && #[trigger] last_char_at(name, '.', i))
    } else {
        None
    }
}

/// The part of a name before its extension.
pub open spec fn name_stem(name: Seq<char>) -> Seq<char> {
    match extension_dot(name) {
        Some(i) => name.take(i),
        None => name,
    }
}

/// The extension of a name.
pub open spec fn name_extension(name: Seq<char>) -> Option<Seq<char>> {
    match extension_dot(name) {
        Some(i) => Some(name.skip(i + 1)),
        None => None,
    }
}

pub open spec fn path_stem(p: Seq<char>) -> Option<Seq<char>> {
    match path_file_name(p) {
        Some(name) => Some(name_stem(name)),
        None => None,
    }
}

pub open spec fn path_extension(p: Seq<char>) -> Option<Seq<char>> {
    match path_file_name(p) {
        Some(name) => name_extension(name),
        None => None,
    }
}

pub proof fn lemma_extension_dot(name: Seq<char>, i: int)
    requires
        last_char_at(name, '.', i),
    ensures
        i > 0 ==> extension_dot(name) == Some(i),
        i == 0 ==> extension_dot(name) is None,
{
    assert forall|j: int| #[trigger] last_char_at(name, '.', j) implies i == j by {
        if i < j {
            assert(name[j] == '.');
        } else if j < i {
            assert(name[i] == '.');
        }
    }
}

fn names_test(seg: &Vec<char>) -> (r: bool)
    ensures
        r == names_something(seg@),
{
    let dot = seg.len() == 1 && seg[0] == '.';
    proof {
        if dot {
            assert(seg@ =~= seq!['.']);
        }
    }
    seg.len() > 0 && !dot
}

fn names(p: &Vec<char>) -> (r: Vec<Vec<char>>)
    ensures
        char_texts(r@) == path_names(p@),
{
    let parts = split(p, &CharClass::Is('/'));
    let ghost keep = |seg: Seq<char>| names_something(seg);
    let mut r: Vec<Vec<char>> = Vec::new();
    let mut i: usize = 0;
    proof {
        lemma_filter_start(char_texts(parts@), keep);
        assert(char_texts(r@) =~= Seq::empty());
    }
    while i < parts.len()
        invariant
            i <= parts.len(),
            keep == (|seg: Seq<char>| names_something(seg)),
            char_texts(r@) == char_texts(parts@).take(i as int).filter(keep),
        decreases parts.len() - i,
    {
        proof {
            lemma_filter_step(char_texts(parts@), keep, i as int);
        }
        if names_test(&parts[i]) {
            let ghost before = char_texts(r@);
            let part = copy_chars(&parts[i]);
            r.push(part);
            assert(char_texts(r@) =~= before.push(part@));
        }
        i = i + 1;
    }
    assert(char_texts(parts@).take(i as int) =~= char_texts(parts@));
    r
}

pub fn components(p: &str) -> (r: Vec<Vec<char>>)
    ensures
        char_texts(r@) == path_components(p@),
{
    let chars = to_chars(p);
    let parts = split(&chars, &CharClass::Is('/'));
    let mut rest = names(&chars);
    let mut r: Vec<Vec<char>> = Vec::new();
    assert(char_texts(parts@)[0] == parts@[0]@);
    if chars.len() > 0 && chars[0] == '/' {
        let mut root: Vec<char> = Vec::new();
        root.push('/');
        r.push(root);
        assert(root@ =~= seq!['/']);
        assert(char_texts(r@) =~= seq![seq!['/']]);
    } else if parts[0].len() == 1 && parts[0][0] == '.' {
        assert(parts@[0]@ =~= seq!['.']);
        let mut here: Vec<char> = Vec::new();
        here.push('.');
        r.push(here);
        assert(here@ =~= seq!['.']);
        assert(char_texts(r@) =~= seq![seq!['.']]);
    } else {
        assert(char_texts(r@) =~= Seq::empty());
    }
    let ghost anchor = r@;
    let ghost named = rest@;
    r.append(&mut rest);
    assert(char_texts(r@) =~= char_texts(anchor) + char_texts(named));
    r
}

/// The components of the directory that holds the path.
pub fn parent(p: &str) -> (r: Option<Vec<Vec<char>>>)
    ensures
        match r {
            Some(v) => path_parent(p@) == Some(char_texts(v@)),
            None => path_parent(p@) is None,
        },
{
    let chars = to_chars(p);
    let named = names(&chars);
    let mut all = components(p);
    assert(char_texts(named@).len() == named@.len());
    assert(char_texts(all@).len() == all@.len());
    if all.len() == 0 || (named.len() == 0 && chars.len() > 0 && chars[0] == '/') {
        return None;
    }
    let ghost before = all@;
    all.pop();
    assert(char_texts(all@) =~= char_texts(before).drop_last());
    Some(all)
}

/// The path with its components between single slashes.
pub fn path_to_slash(p: &str) -> (r: String)
    ensures
        r@ == slash_path(p@),
{
    let all = components(p);
    let text = join(&all, "/");
    proof {
        reveal_strlit("/");
        assert("/"@ =~= seq!['/']);
    }
    from_chars(&text)
}

pub fn file_name(p: &str) -> (r: Option<Vec<char>>)
    ensures
        match r {
            Some(v) => path_file_name(p@) == Some(v@),
            None => path_file_name(p@) is None,
        },
{
    let chars = to_chars(p);
    let named = names(&chars);
    assert(char_texts(named@).len() == named@.len());
    if named.len() == 0 {
        return None;
    }
    let last = &named[named.len() - 1];
    assert(char_texts(named@).last() == last@);
    if last.len() == 2 && last[0] == '.' && last[1] == '.' {
        assert(last@ =~= seq!['.', '.']);
        return None;
    }
    Some(copy_chars(last))
}

fn dot_index(name: &Vec<char>) -> (r: Option<usize>)
    ensures
        match r {
            Some(i) => extension_dot(name@) == Some(i as int) && 0 < i < name.len(),
            None => extension_dot(name@) is None,
        },
{
    match rfind_char(name, '.') {
        Some(i) => {
            proof {
                lemma_extension_dot(name@, i as int);
            }
            if i > 0 {
                Some(i)
            } else {
                None
            }
        },
        None => None,
    }
}

/// The part of a name before its extension.
pub fn stem_of_name(name: &Vec<char>) -> (r: Vec<char>)
    ensures
        r@ == name_stem(name@),
{
    match dot_index(name) {
        Some(i) => slice(name, 0, i),
        None => copy_chars(name),
    }
}

pub fn file_stem(p: &str) -> (r: Option<Vec<char>>)
    ensures
        match r {
            Some(v) => path_stem(p@) == Some(v@),
            None => path_stem(p@) is None,
        },
{
    match file_name(p) {
        Some(name) => Some(stem_of_name(&name)),
        None => None,
    }
}

pub fn extension(p: &str) -> (r: Option<Vec<char>>)
    ensures
        match r {
            Some(v) => path_extension(p@) == Some(v@),
            None => path_extension(p@) is None,
        },
{
    match file_name(p) {
        Some(name) => match dot_index(&name) {
            Some(i) => {
                let r = slice(&name, i + 1, name.len());
                assert(r@ =~= name@.skip(i + 1));
                Some(r)
            },
            None => None,
        },
        None => None,
    }
}

/// A path below another one; a path from the root stands for itself.
pub open spec fn path_join(base: Seq<char>, p: Seq<char>) -> Seq<char> {
    if p.len() > 0 && p[0] == '/' {
        p
    } else if base.len() == 0 || base.last() == '/' {
        base + p
    } else {
        base + seq!['/'] + p
    }
}

pub fn join_path(base: &str, p: &str) -> (r: String)
    ensures
        r@ == path_join(base@, p@),
{
    let tail = to_chars(p);
    if tail.len() > 0 && tail[0] == '/' {
        return from_chars(&tail);
    }
    let mut out = to_chars(base);
    if out.len() > 0 && out[out.len() - 1] != '/' {
        out.push('/');
        assert(out@ =~= base@ + seq!['/']);
    }
    extend(&mut out, &tail);
    from_chars(&out)
}

} // verus!
