//! Laws of paths and of the names in them.


use crate::path::{
    lemma_extension_dot, name_extension, name_stem, names_something, path_components,
    path_extension, path_file_name, path_join, path_names, path_parent, path_stem, slash_path,
};
use crate::staging::path_of;
use crate::text::{
    joined, last_char_at, lemma_pieces_concat, lemma_pieces_nonempty, lemma_pieces_single, pieces,
    CharClass,
};
use vstd::prelude::*;

verus! {

/// Whether a text can stand in a path as the name of a file or a directory.
pub open spec fn is_name(name: Seq<char>) -> bool {
    name.len() > 0 && !name.contains('/') && name != seq!['.']
}

proof fn lemma_one_name(name: Seq<char>)
    requires
        is_name(name),
    ensures
        path_names(name) == seq![name],
        pieces(name, CharClass::Is('/')) == seq![name],
{
    let class = CharClass::Is('/');
    assert forall|i: int| 0 <= i < name.len() implies !class.has(#[trigger] name[i]) by {
        assert(name.contains(name[i]));
    }
    lemma_pieces_single(name, class);
    let keep = |seg: Seq<char>| names_something(seg);
    reveal(Seq::filter);
    let one = seq![name];
    assert(one.drop_last() =~= Seq::<Seq<char>>::empty());
    assert(one.last() == name);
    assert(keep(name));
    assert(Seq::<Seq<char>>::empty().filter(keep) =~= Seq::empty());
    assert(one.filter(keep) =~= one);
}

/// The path of a name in a directory names what the directory does, and then the
/// name; its directory is the one that it was made of.
pub proof fn law_name_in_a_directory(dir: Seq<char>, name: Seq<char>)
    requires
        dir.len() > 0,
        is_name(name),
    ensures
        path_names(dir + seq!['/'] + name) == path_names(dir).push(name),
        path_parent(dir + seq!['/'] + name) == Some(path_components(dir)),
        name != seq!['.', '.'] ==> path_file_name(dir + seq!['/'] + name) == Some(name),
{
    let p = dir + seq!['/'] + name;
    let class = CharClass::Is('/');
    let keep = |seg: Seq<char>| names_something(seg);
    lemma_pieces_concat(dir, name, '/');
    lemma_one_name(name);
    lemma_pieces_nonempty(dir, class);
    Seq::filter_distributes_over_add(pieces(dir, class), pieces(name, class), keep);
    assert(path_names(p) =~= path_names(dir).push(name));
    assert(p[0] == dir[0]);
    assert(pieces(p, class)[0] == pieces(dir, class)[0]);
    assert(path_components(p) =~= path_components(dir).push(name));
    assert(path_components(p).drop_last() =~= path_components(dir));
}

/// A bare name is its own file name, and lies in no directory.
pub proof fn law_bare_name(name: Seq<char>)
    requires
        is_name(name),
        name != seq!['.', '.'],
    ensures
        path_file_name(name) == Some(name),
        path_parent(name) == Some(Seq::<Seq<char>>::empty()),
{
    lemma_one_name(name);
    assert(name.contains(name[0]));
    assert(path_components(name) =~= seq![name]);
    assert(path_components(name).drop_last() =~= Seq::<Seq<char>>::empty());
}

/// What stands behind the last dot of a name is its extension, and what stands
/// before it the stem, where anything does.
pub proof fn law_stem_and_extension(stem: Seq<char>, ext: Seq<char>)
    requires
        stem.len() > 0,
        !ext.contains('.'),
    ensures
        name_stem(stem + seq!['.'] + ext) == stem,
        name_extension(stem + seq!['.'] + ext) == Some(ext),
{
    let name = stem + seq!['.'] + ext;
    let i = stem.len() as int;
    assert(name[i] == '.');
    assert forall|j: int| i < j < name.len() implies #[trigger] name[j] != '.' by {
        assert(ext.contains(ext[j - i - 1]));
    }
    lemma_extension_dot(name, i);
    assert(name.take(i) =~= stem);
    assert(name.skip(i + 1) =~= ext);
}

/// A name without a dot has no extension, nor has one that only starts with a
/// dot.
pub proof fn law_no_extension(name: Seq<char>)
    requires
        !name.contains('.'),
    ensures
        name_extension(name) is None,
        name_stem(name) == name,
        name_extension(seq!['.'] + name) is None,
        name_stem(seq!['.'] + name) == seq!['.'] + name,
{
    let hidden = seq!['.'] + name;
    assert forall|i: int| i > 0 implies !#[trigger] last_char_at(name, '.', i) by {
        if last_char_at(name, '.', i) {
            assert(name.contains(name[i]));
        }
    }
    assert forall|i: int| i > 0 implies !#[trigger] last_char_at(hidden, '.', i) by {
        if last_char_at(hidden, '.', i) {
            assert(hidden[i] == name[i - 1]);
            assert(name.contains(name[i - 1]));
        }
    }
}

/// The extension and the stem of a path are those of its name.
pub proof fn law_extension_of_a_path(dir: Seq<char>, stem: Seq<char>, ext: Seq<char>)
    requires
        dir.len() > 0,
        stem.len() > 0,
        ext.len() > 0,
        !stem.contains('/'),
        !ext.contains('/'),
        !ext.contains('.'),
    ensures
        path_extension(dir + seq!['/'] + (stem + seq!['.'] + ext)) == Some(ext),
        path_stem(dir + seq!['/'] + (stem + seq!['.'] + ext)) == Some(stem),
{
    let name = stem + seq!['.'] + ext;
    assert(!name.contains('/')) by {
        if name.contains('/') {
            let i = name.index_of('/');
            if i < stem.len() {
                assert(stem.contains(stem[i]));
            } else if i > stem.len() {
                assert(ext.contains(ext[i - stem.len() - 1]));
            }
        }
    }
    assert(name.len() >= 3);
    law_name_in_a_directory(dir, name);
    law_stem_and_extension(stem, ext);
}

/// A path below a directory stands behind it with one slash between them; a path
/// from the root stays as it is.
pub proof fn law_path_below_a_directory(base: Seq<char>, p: Seq<char>)
    ensures
        p.len() > 0 && p[0] == '/' ==> path_join(base, p) == p,
        (p.len() == 0 || p[0] != '/') && base.len() > 0 && base.last() == '/' ==> path_join(base, p)
            == base + p,
        (p.len() == 0 || p[0] != '/') && base.len() > 0 && base.last() != '/' ==> path_join(base, p)
            == base + seq!['/'] + p,
        (p.len() == 0 || p[0] != '/') ==> path_join(Seq::empty(), p) == p,
{
    assert(Seq::<char>::empty() + p =~= p);
}

/// A path with single slashes is its directory, a slash and its name.
pub proof fn law_path_with_single_slashes(dir: Seq<char>, name: Seq<char>)
    requires
        dir.len() > 0,
        is_name(name),
        path_components(dir).len() > 0,
    ensures
        slash_path(dir + seq!['/'] + name) == slash_path(dir) + seq!['/'] + name,
{
    law_name_in_a_directory(dir, name);
    let all = path_components(dir + seq!['/'] + name);
    assert(path_components(dir + seq!['/'] + name).drop_last() == path_components(dir));
    assert(path_names(dir + seq!['/'] + name).last() == name);
    assert(all.last() == name);
}

/// A path of components has them between slashes, and one of the root starts
/// with it.
pub proof fn law_path_of_components(parts: Seq<Seq<char>>)
    requires
        parts.len() > 0,
    ensures
        parts[0] != seq!['/'] ==> path_of(parts) == joined(parts, seq!['/']),
        parts[0] == seq!['/'] ==> path_of(parts) == seq!['/'] + joined(parts.skip(1), seq!['/']),
{
}

} // verus!
