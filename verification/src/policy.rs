//! Which paths are left out: prefixes, folder names and ages.

use crate::filter::{lemma_filter_start, lemma_filter_step};
use crate::number::{bounded_number, parse_number};
use crate::text::{
    any_same, ascii_lower, char_texts, chars_same, copy_chars, digit_test, extend_str, from_chars,
    is_digit, join, joined, lemma_pieces_concat, opt_str, pieces, same, slice, split, split_words,
    stands, starts_with, strip, stripped, texts, to_ascii_lower, to_chars, words, CharClass,
};
use crate::textmap::TextMap;
use vstd::prelude::*;
use vstd::string::*;

verus! {

// ---------------------------------------------------------------------------
// Normal paths
// ---------------------------------------------------------------------------

/// A path in normal form: the white space around it removed, and its
/// non-empty segments joined by single slashes.
pub open spec fn policy_path(p: Seq<char>) -> Seq<char> {
    joined(words(stripped(p), CharClass::Is('/')), seq!['/'])
}

pub(crate) fn policy_chars(p: &Vec<char>) -> (r: Vec<char>)
    ensures
        r@ == policy_path(p@),
{
    let s = strip(p);
    let parts = split_words(&s, &CharClass::Is('/'));
    proof {
        reveal_strlit("/");
        assert("/"@ =~= seq!['/']);
    }
    join(&parts, "/")
}

pub fn normalize_policy_path(value: &str) -> (r: String)
    ensures
        r@ == policy_path(value@),
{
    let chars = to_chars(value);
    let normal = policy_chars(&chars);
    from_chars(&normal)
}

/// The normal forms of the given paths, in order, without the empty ones.
pub open spec fn normal_excludes(values: Seq<Seq<char>>) -> Seq<Seq<char>> {
    values.map_values(|v: Seq<char>| policy_path(v)).filter(|v: Seq<char>| v.len() > 0)
}

pub fn normalize_excludes(values: &Vec<String>) -> (r: Vec<String>)
    ensures
        texts(r@) == normal_excludes(texts(values@)),
{
    let mut r: Vec<String> = Vec::new();
    let mut i: usize = 0;
    let ghost all = texts(values@).map_values(|v: Seq<char>| policy_path(v));
    let ghost keep = |v: Seq<char>| v.len() > 0;
    proof {
        lemma_filter_start(all, keep);
        assert(texts(r@) =~= Seq::empty());
    }
    while i < values.len()
        invariant
            i <= values.len(),
            keep == (|v: Seq<char>| v.len() > 0),
            all == texts(values@).map_values(|v: Seq<char>| policy_path(v)),
            texts(r@) == all.take(i as int).filter(keep),
        decreases values.len() - i,
    {
        let chars = to_chars(values[i].as_str());
        let normal = policy_chars(&chars);
        proof {
            assert(all[i as int] == normal@);
            lemma_filter_step(all, keep, i as int);
        }
        if normal.len() > 0 {
            let ghost before = texts(r@);
            r.push(from_chars(&normal));
            assert(texts(r@) =~= before.push(normal@));
        }
        i = i + 1;
    }
    assert(all.take(i as int) =~= all);
    r
}

/// Whether a path is `base` or lies below it.
pub open spec fn within(path: Seq<char>, base: Seq<char>) -> bool {
    path == base || below(path, base)
}

/// Whether a path lies below `base`.
pub open spec fn below(path: Seq<char>, base: Seq<char>) -> bool {
    starts_with(path, base + seq!['/'])
}

pub(crate) fn is_below(path: &Vec<char>, base: &Vec<char>) -> (r: bool)
    ensures
        r == below(path@, base@),
{
    let n: usize = base.len();
    if path.len() <= n {
        return false;
    }
    let r = stands(path, base, 0) && path[n] == '/';
    proof {
        let lead = path@.subrange(0, n + 1);
        let want = base@ + seq!['/'];
        if r {
            assert(path@.subrange(0, n as int) == base@);
            assert forall|k: int| 0 <= k < n implies lead[k] == want[k] by {
                assert(path@.subrange(0, n as int)[k] == base@[k]);
            }
            assert(lead =~= want);
        } else if lead == want {
            assert(lead[n as int] == '/');
            assert(path@.subrange(0, n as int) =~= base@) by {
                assert forall|k: int| 0 <= k < n implies path@.subrange(0, n as int)[k]
                    == base@[k] by {
                    assert(lead[k] == want[k]);
                }
            }
        }
    }
    r
}

pub(crate) fn is_within(path: &Vec<char>, base: &Vec<char>) -> (r: bool)
    ensures
        r == within(path@, base@),
{
    let text = from_chars(base);
    chars_same(path, text.as_str()) || is_below(path, base)
}

// ---------------------------------------------------------------------------
// Policies
// ---------------------------------------------------------------------------

/// What to leave out of an index.
pub struct ExcludePolicy {
    /// Paths that are left out with all that lies below them.
    pub directory_prefixes: Vec<String>,
    /// Names that are left out wherever they stand in a path.
    pub folder_name_additions: Vec<String>,
    /// Names that are left out below a path.
    pub subtree_overrides: TextMap<Vec<String>>,
    /// Whether the policy, and with it the names that are always noise, is in force.
    pub enabled: bool,
}

impl ExcludePolicy {
    pub open spec fn wf(&self) -> bool {
        self.subtree_overrides.wf()
    }

    /// The policy that leaves nothing out.
    pub fn empty() -> (r: Self)
        ensures
            r.wf(),
            !r.enabled,
            r.directory_prefixes@.len() == 0,
            r.folder_name_additions@.len() == 0,
            r.subtree_overrides@ == Map::<Seq<char>, Vec<String>>::empty(),
    {
        ExcludePolicy {
            directory_prefixes: Vec::new(),
            folder_name_additions: Vec::new(),
            subtree_overrides: TextMap::new(),
            enabled: false,
        }
    }
}

/// The names that hold no content of interest in any tree.
pub open spec fn is_default_noise(name: Seq<char>) -> bool {
    ||| name == ".cache"@
    ||| name == ".DS_Store"@
    ||| name == ".git"@
    ||| name == ".nobackup"@
    ||| name == ".svn"@
    ||| name == ".Trash"@
    ||| name == ".Trashes"@
    ||| name == "$RECYCLE.BIN"@
    ||| name == "$RECYCLE"@
    ||| name == "Desktop.ini"@
    ||| name == "Node_modules"@
    ||| name == "Recovered Files"@
    ||| name == "System Volume Information"@
    ||| name == "Temporary Items"@
    ||| name == "Thumbs.db"@
    ||| name == "tmp"@
    ||| name == "temp"@
}

pub fn default_noise(name: &str) -> (r: bool)
    ensures
        r == is_default_noise(name@),
{
    same(name, ".cache") || same(name, ".DS_Store") || same(name, ".git") || same(
        name,
        ".nobackup",
    ) || same(name, ".svn") || same(name, ".Trash") || same(name, ".Trashes") || same(
        name,
        "$RECYCLE.BIN",
    ) || same(name, "$RECYCLE") || same(name, "Desktop.ini") || same(name, "Node_modules") || same(
        name,
        "Recovered Files",
    ) || same(name, "System Volume Information") || same(name, "Temporary Items") || same(
        name,
        "Thumbs.db",
    ) || same(name, "tmp") || same(name, "temp")
}

/// Whether one of the segments, from an index on, is noise everywhere or has
/// one of the given names.
pub open spec fn has_noise(
    segments: Seq<Seq<char>>,
    from: int,
    everywhere: Seq<Seq<char>>,
    here: Seq<Seq<char>>,
) -> bool {
    exists|k: int|
        from <= k < segments.len() && is_noise(#[trigger] segments[k], everywhere, here)
}

pub open spec fn is_noise(
    name: Seq<char>,
    everywhere: Seq<Seq<char>>,
    here: Seq<Seq<char>>,
) -> bool {
    is_default_noise(name) || everywhere.contains(name) || here.contains(name)
}

/// The number of segments of a subtree's path.
pub open spec fn subtree_depth(base: Seq<char>) -> nat {
    if base.len() == 0 {
        0
    } else {
        pieces(base, CharClass::Is('/')).len()
    }
}

/// Whether a policy leaves a path in normal form out.
pub open spec fn normal_excluded(path: Seq<char>, policy: ExcludePolicy) -> bool {
    let segments = pieces(path, CharClass::Is('/'));
    let names = texts(policy.folder_name_additions@);
    ||| exists|i: int|
        0 <= i < policy.directory_prefixes@.len() && within(
            path,
            (#[trigger] policy.directory_prefixes@[i])@,
        )
    ||| has_noise(segments, 0, names, Seq::empty())
    ||| exists|base: Seq<char>|
        {
            &&& #[trigger] policy.subtree_overrides@.contains_key(base)
            &&& within(path, base)
            &&& has_noise(
                segments,
                subtree_depth(base) as int,
                names,
                texts(policy.subtree_overrides@[base]@),
            )
        }
}

/// Whether a policy leaves a path out.
pub open spec fn excluded(path: Seq<char>, policy: ExcludePolicy) -> bool {
    &&& policy.enabled
    &&& policy_path(path).len() > 0
    &&& normal_excluded(policy_path(path), policy)
}

/// Whether one of the segments, from `from` on, is noise.
fn contains_folder_noise(
    segments: &Vec<Vec<char>>,
    from: usize,
    everywhere: &Vec<String>,
    here: &Vec<String>,
) -> (r: bool)
    ensures
        r == has_noise(char_texts(segments@), from as int, texts(everywhere@), texts(here@)),
{
    let ghost all = char_texts(segments@);
    let mut k: usize = from;
    while k < segments.len()
        invariant
            from <= k,
            all == char_texts(segments@),
            forall|j: int|
                from <= j < k && j < all.len() ==> !is_noise(
                    #[trigger] all[j],
                    texts(everywhere@),
                    texts(here@),
                ),
        decreases segments.len() - k,
    {
        let name = from_chars(&segments[k]);
        assert(all[k as int] == name@);
        if default_noise(name.as_str()) || any_same(everywhere, name.as_str()) || any_same(
            here,
            name.as_str(),
        ) {
            return true;
        }
        k = k + 1;
    }
    false
}

/// Whether a policy leaves a path out.
pub fn should_exclude_path(rel_path: &str, policy: &ExcludePolicy) -> (r: bool)
    requires
        policy.wf(),
    ensures
        r == excluded(rel_path@, *policy),
{
    if !policy.enabled {
        return false;
    }
    let raw = to_chars(rel_path);
    let path = policy_chars(&raw);
    if path.len() == 0 {
        return false;
    }
    let mut i: usize = 0;
    while i < policy.directory_prefixes.len()
        invariant
            i <= policy.directory_prefixes@.len(),
            path@ == policy_path(rel_path@),
            path@.len() > 0,
            policy.enabled,
            forall|k: int|
                0 <= k < i ==> !within(path@, (#[trigger] policy.directory_prefixes@[k])@),
        decreases policy.directory_prefixes.len() - i,
    {
        let prefix = to_chars(policy.directory_prefixes[i].as_str());
        if is_within(&path, &prefix) {
            assert(within(path@, policy.directory_prefixes@[i as int]@));
            return true;
        }
        i = i + 1;
    }
    let segments = split(&path, &CharClass::Is('/'));
    let none: Vec<String> = Vec::new();
    assert(texts(none@) =~= Seq::empty());
    if contains_folder_noise(&segments, 0, &policy.folder_name_additions, &none) {
        return true;
    }
    let subtrees = &policy.subtree_overrides;
    let ghost names = texts(policy.folder_name_additions@);
    let mut k: usize = 0;
    proof {
        subtrees.lemma_entries();
    }
    while k < subtrees.len()
        invariant
            policy.wf(),
            *subtrees == policy.subtree_overrides,
            k <= subtrees.key_seq().len(),
            path@ == policy_path(rel_path@),
            path@.len() > 0,
            policy.enabled,
            names == texts(policy.folder_name_additions@),
            char_texts(segments@) == pieces(path@, CharClass::Is('/')),
            forall|i: int|
                0 <= i < subtrees.key_seq().len() ==> subtrees@.contains_key(
                    #[trigger] subtrees.key_seq()[i],
                ) && subtrees@[subtrees.key_seq()[i]] == subtrees.value_seq()[i],
            forall|j: int|
                0 <= j < k ==> !(within(path@, #[trigger] subtrees.key_seq()[j]) && has_noise(
                    pieces(path@, CharClass::Is('/')),
                    subtree_depth(subtrees.key_seq()[j]) as int,
                    names,
                    texts(subtrees.value_seq()[j]@),
                )),
        decreases subtrees.key_seq().len() - k,
    {
        let base = to_chars(subtrees.key_at(k).as_str());
        if is_within(&path, &base) {
            let from: usize = if base.len() == 0 {
                0
            } else {
                split(&base, &CharClass::Is('/')).len()
            };
            assert(from == subtree_depth(base@)) by {
                if base@.len() > 0 {
                    assert(from == pieces(base@, CharClass::Is('/')).len());
                }
            }
            if contains_folder_noise(
                &segments,
                from,
                &policy.folder_name_additions,
                subtrees.value_at(k),
            ) {
                assert(policy.subtree_overrides@.contains_key(base@));
                return true;
            }
        }
        k = k + 1;
    }
    proof {
        subtrees.lemma_entries();
        if exists|base: Seq<char>|
            {
                &&& #[trigger] policy.subtree_overrides@.contains_key(base)
                &&& within(path@, base)
                &&& has_noise(
                    pieces(path@, CharClass::Is('/')),
                    subtree_depth(base) as int,
                    names,
                    texts(policy.subtree_overrides@[base]@),
                )
            } {
            let base = choose|base: Seq<char>|
                {
                    &&& #[trigger] policy.subtree_overrides@.contains_key(base)
                    &&& within(path@, base)
                    &&& has_noise(
                        pieces(path@, CharClass::Is('/')),
                        subtree_depth(base) as int,
                        names,
                        texts(policy.subtree_overrides@[base]@),
                    )
                };
            let j = subtrees.key_seq().index_of(base);
            assert(subtrees.key_seq()[j] == base);
        }
    }
    false
}

proof fn lemma_within_extends(path: Seq<char>, base: Seq<char>, rest: Seq<char>)
    requires
        within(path, base),
    ensures
        within(path + seq!['/'] + rest, base),
{
    let t = path + seq!['/'] + rest;
    let lead = base + seq!['/'];
    if path == base {
        assert(t.subrange(0, lead.len() as int) =~= lead);
    } else {
        assert(t.subrange(0, lead.len() as int) =~= path.subrange(0, lead.len() as int));
    }
}

/// What lies below a path that is left out is left out too.
pub proof fn law_excluded_below(path: Seq<char>, rest: Seq<char>, policy: ExcludePolicy)
    requires
        policy_path(path) == path,
        policy_path(path + seq!['/'] + rest) == path + seq!['/'] + rest,
        excluded(path, policy),
    ensures
        excluded(path + seq!['/'] + rest, policy),
{
    let t = path + seq!['/'] + rest;
    let class = CharClass::Is('/');
    let segments = pieces(path, class);
    let names = texts(policy.folder_name_additions@);
    lemma_pieces_concat(path, rest, '/');
    if exists|i: int|
        0 <= i < policy.directory_prefixes@.len() && within(
            path,
            (#[trigger] policy.directory_prefixes@[i])@,
        ) {
        let i = choose|i: int|
            0 <= i < policy.directory_prefixes@.len() && within(
                path,
                (#[trigger] policy.directory_prefixes@[i])@,
            );
        lemma_within_extends(path, policy.directory_prefixes@[i]@, rest);
    } else if has_noise(segments, 0, names, Seq::empty()) {
        let k = choose|k: int|
            0 <= k < segments.len() && is_noise(#[trigger] segments[k], names, Seq::empty());
        assert(pieces(t, class)[k] == segments[k]);
    } else {
        let base = choose|base: Seq<char>|
            {
                &&& #[trigger] policy.subtree_overrides@.contains_key(base)
                &&& within(path, base)
                &&& has_noise(
                    segments,
                    subtree_depth(base) as int,
                    names,
                    texts(policy.subtree_overrides@[base]@),
                )
            };
        lemma_within_extends(path, base, rest);
        let here = texts(policy.subtree_overrides@[base]@);
        let k = choose|k: int|
            subtree_depth(base) <= k < segments.len() && is_noise(
                #[trigger] segments[k],
                names,
                here,
            );
        assert(pieces(t, class)[k] == segments[k]);
        assert(has_noise(pieces(t, class), subtree_depth(base) as int, names, here));
    }
}

/// A path that a policy names is left out, and so is what lies below it.
pub proof fn law_named_path_is_left_out(path: Seq<char>, policy: ExcludePolicy, i: int)
    requires
        policy.enabled,
        0 <= i < policy.directory_prefixes@.len(),
        policy_path(path).len() > 0,
        within(policy_path(path), policy.directory_prefixes@[i]@),
    ensures
        excluded(path, policy),
{
}

/// A folder name that a policy adds is left out wherever it stands in a path.
pub proof fn law_added_name_is_left_out(path: Seq<char>, policy: ExcludePolicy, name: Seq<char>)
    requires
        policy.enabled,
        policy_path(path).len() > 0,
        texts(policy.folder_name_additions@).contains(name),
        pieces(policy_path(path), CharClass::Is('/')).contains(name),
    ensures
        excluded(path, policy),
{
    let segments = pieces(policy_path(path), CharClass::Is('/'));
    let k = segments.index_of(name);
    assert(is_noise(segments[k], texts(policy.folder_name_additions@), Seq::empty()));
}

/// What a policy adds for a subtree says nothing of paths outside of it.
pub proof fn law_override_stays_in_its_subtree(
    path: Seq<char>,
    a: ExcludePolicy,
    b: ExcludePolicy,
    base: Seq<char>,
)
    requires
        a.enabled == b.enabled,
        a.directory_prefixes == b.directory_prefixes,
        a.folder_name_additions == b.folder_name_additions,
        a.subtree_overrides@.remove(base) == b.subtree_overrides@.remove(base),
        !within(policy_path(path), base),
    ensures
        excluded(path, a) == excluded(path, b),
{
    assert forall|other: Seq<char>| within(policy_path(path), other) implies {
        &&& a.subtree_overrides@.contains_key(other) == b.subtree_overrides@.contains_key(other)
        &&& a.subtree_overrides@.contains_key(other) ==> a.subtree_overrides@[other]
            == b.subtree_overrides@[other]
    } by {
        let m = a.subtree_overrides@.remove(base);
        let n = b.subtree_overrides@.remove(base);
        assert(m.contains_key(other) == n.contains_key(other));
        assert(m[other] == n[other]);
    }
}

/// Whether a directory is visited.
pub open spec fn is_walked(
    is_root: bool,
    rel_path: Option<Seq<char>>,
    policy: ExcludePolicy,
    has_marker: bool,
) -> bool {
    if is_root {
        !has_marker
    } else {
        match rel_path {
            Some(rel) => !excluded(rel, policy) && !has_marker,
            None => true,
        }
    }
}

/// A directory is visited where nothing leaves it out: no marker file in it,
/// and below the root not the policy. `rel_path` is the directory's path below
/// the root, where it has one.
pub fn should_walk(
    is_root: bool,
    rel_path: Option<&str>,
    policy: &ExcludePolicy,
    has_marker: bool,
) -> (r: bool)
    requires
        policy.wf(),
    ensures
        r == is_walked(is_root, opt_str(rel_path), *policy, has_marker),
        is_root ==> r == !has_marker,
        !is_root ==> r == match rel_path {
            Some(rel) => !excluded(rel@, *policy) && !has_marker,
            None => true,
        },
{
    if is_root {
        return !has_marker;
    }
    match rel_path {
        Some(rel) => !should_exclude_path(rel, policy) && !has_marker,
        None => true,
    }
}

// ---------------------------------------------------------------------------
// Policies as they are read
// ---------------------------------------------------------------------------

/// The texts of a sequence, each where it first occurs.
pub open spec fn distinct(v: Seq<Seq<char>>) -> Seq<Seq<char>>
    decreases v.len(),
{
    if v.len() == 0 {
        Seq::empty()
    } else {
        let init = distinct(v.drop_last());
        if init.contains(v.last()) {
            init
        } else {
            init.push(v.last())
        }
    }
}

/// The texts without the white space around them, without the empty ones, each
/// where it first occurs.
pub open spec fn normal_names(values: Seq<Seq<char>>) -> Seq<Seq<char>> {
    distinct(
        values.map_values(|v: Seq<char>| stripped(v)).filter(|v: Seq<char>| v.len() > 0),
    )
}

fn keep_distinct(values: &Vec<String>) -> (r: Vec<String>)
    ensures
        texts(r@) == distinct(texts(values@)),
{
    let mut r: Vec<String> = Vec::new();
    let mut i: usize = 0;
    assert(texts(r@) =~= Seq::empty());
    while i < values.len()
        invariant
            i <= values.len(),
            texts(r@) == distinct(texts(values@).take(i as int)),
        decreases values.len() - i,
    {
        proof {
            let t = texts(values@).take(i as int + 1);
            assert(t.drop_last() =~= texts(values@).take(i as int));
            assert(t.last() == values@[i as int]@);
        }
        if !any_same(&r, values[i].as_str()) {
            let ghost before = texts(r@);
            r.push(values[i].clone());
            assert(texts(r@) =~= before.push(values@[i as int]@));
        }
        i = i + 1;
    }
    assert(texts(values@).take(i as int) =~= texts(values@));
    r
}

fn normalize_names(values: &Vec<String>) -> (r: Vec<String>)
    ensures
        texts(r@) == normal_names(texts(values@)),
{
    let mut kept: Vec<String> = Vec::new();
    let mut i: usize = 0;
    let ghost all = texts(values@).map_values(|v: Seq<char>| stripped(v));
    let ghost keep = |v: Seq<char>| v.len() > 0;
    proof {
        lemma_filter_start(all, keep);
        assert(texts(kept@) =~= Seq::empty());
    }
    while i < values.len()
        invariant
            i <= values.len(),
            keep == (|v: Seq<char>| v.len() > 0),
            all == texts(values@).map_values(|v: Seq<char>| stripped(v)),
            texts(kept@) == all.take(i as int).filter(keep),
        decreases values.len() - i,
    {
        let chars = to_chars(values[i].as_str());
        let name = strip(&chars);
        proof {
            assert(all[i as int] == name@);
            lemma_filter_step(all, keep, i as int);
        }
        if name.len() > 0 {
            let ghost before = texts(kept@);
            kept.push(from_chars(&name));
            assert(texts(kept@) =~= before.push(name@));
        }
        i = i + 1;
    }
    assert(all.take(i as int) =~= all);
    keep_distinct(&kept)
}

/// The normal subtree rules of the first `n` entries: normal paths and names,
/// no rule without a path or without names, the later of two rules for one path.
pub open spec fn normal_rules(
    keys: Seq<Seq<char>>,
    values: Seq<Vec<String>>,
    n: int,
) -> Map<Seq<char>, Seq<Seq<char>>>
    decreases n,
{
    if n <= 0 {
        Map::empty()
    } else {
        let before = normal_rules(keys, values, n - 1);
        let base = policy_path(keys[n - 1]);
        let names = normal_names(texts(values[n - 1]@));
        if base.len() > 0 && names.len() > 0 {
            before.insert(base, names)
        } else {
            before
        }
    }
}

/// Whether a map holds exactly the given rules.
pub open spec fn holds_rules(
    m: Map<Seq<char>, Vec<String>>,
    rules: Map<Seq<char>, Seq<Seq<char>>>,
) -> bool {
    &&& m.dom() == rules.dom()
    &&& forall|base: Seq<char>|
        #[trigger] m.contains_key(base) ==> texts(m[base]@) == rules[base]
}

/// The policy that a policy file states: in force, with normal paths and names.
pub fn normalized_policy(parsed: &ExcludePolicy) -> (r: ExcludePolicy)
    requires
        parsed.wf(),
    ensures
        r.wf(),
        r.enabled,
        texts(r.directory_prefixes@) == distinct(normal_excludes(texts(parsed.directory_prefixes@))),
        texts(r.folder_name_additions@) == normal_names(texts(parsed.folder_name_additions@)),
        holds_rules(
            r.subtree_overrides@,
            normal_rules(
                parsed.subtree_overrides.key_seq(),
                parsed.subtree_overrides.value_seq(),
                parsed.subtree_overrides.key_seq().len() as int,
            ),
        ),
{
    let prefixes = normalize_excludes(&parsed.directory_prefixes);
    let prefixes = keep_distinct(&prefixes);
    let names = normalize_names(&parsed.folder_name_additions);
    let rules = &parsed.subtree_overrides;
    let mut out: TextMap<Vec<String>> = TextMap::new();
    let mut i: usize = 0;
    proof {
        assert(out@.dom() =~= normal_rules(rules.key_seq(), rules.value_seq(), 0).dom());
    }
    while i < rules.len()
        invariant
            rules.wf(),
            out.wf(),
            i <= rules.key_seq().len(),
            holds_rules(out@, normal_rules(rules.key_seq(), rules.value_seq(), i as int)),
        decreases rules.key_seq().len() - i,
    {
        let base = normalize_policy_path(rules.key_at(i).as_str());
        let here = normalize_names(rules.value_at(i));
        let ghost before = out@;
        let ghost old_rules = normal_rules(rules.key_seq(), rules.value_seq(), i as int);
        assert(texts(here@).len() == here@.len());
        if !base.as_str().is_empty() && here.len() > 0 {
            let ghost b = base@;
            let ghost h = texts(here@);
            out.insert(base, here);
            proof {
                let new_rules = old_rules.insert(b, h);
                assert(out@.dom() =~= new_rules.dom());
                assert forall|k: Seq<char>| #[trigger] out@.contains_key(k) implies texts(
                    out@[k]@,
                ) == new_rules[k] by {
                    if k != b {
                        assert(before.contains_key(k));
                    }
                }
            }
        }
        i = i + 1;
    }
    ExcludePolicy {
        directory_prefixes: prefixes,
        folder_name_additions: names,
        subtree_overrides: out,
        enabled: true,
    }
}

/// The notations that a policy can be written in.
#[derive(Clone, Copy, Debug, PartialEq, Eq, Structural)]
pub enum PolicyFormat {
    Yaml,
    Json,
    Json5,
}

/// The notations to try for a policy file, by the extension of its name in
/// lower case, in order.
pub open spec fn formats_for(extension: Seq<char>) -> Seq<PolicyFormat> {
    if extension == "yml"@ || extension == "yaml"@ {
        seq![PolicyFormat::Yaml]
    } else if extension == "json5"@ {
        seq![PolicyFormat::Json5]
    } else if extension == "json"@ {
        seq![PolicyFormat::Json, PolicyFormat::Json5]
    } else {
        seq![PolicyFormat::Yaml, PolicyFormat::Json, PolicyFormat::Json5]
    }
}

pub fn policy_formats(extension: &str) -> (r: Vec<PolicyFormat>)
    ensures
        r@ == formats_for(ascii_lower(extension@)),
{
    let chars = to_chars(extension);
    let low = to_ascii_lower(&chars);
    let ext = from_chars(&low);
    let mut r: Vec<PolicyFormat> = Vec::new();
    if same(ext.as_str(), "yml") || same(ext.as_str(), "yaml") {
        r.push(PolicyFormat::Yaml);
    } else if same(ext.as_str(), "json5") {
        r.push(PolicyFormat::Json5);
    } else if same(ext.as_str(), "json") {
        r.push(PolicyFormat::Json);
        r.push(PolicyFormat::Json5);
    } else {
        r.push(PolicyFormat::Yaml);
        r.push(PolicyFormat::Json);
        r.push(PolicyFormat::Json5);
    }
    assert(r@ =~= formats_for(ascii_lower(extension@)));
    r
}

/// What is told of a policy file that cannot be read in any of its notations,
/// with the error of each.
pub open spec fn policy_fault(
    path: Seq<char>,
    formats: Seq<PolicyFormat>,
    errors: Seq<Seq<char>>,
) -> Seq<char> {
    if formats.len() == 1 {
        if formats[0] == PolicyFormat::Yaml {
            "invalid yaml policy "@ + path
        } else {
            "invalid json5 policy "@ + path
        }
    } else if formats.len() == 2 {
        "invalid json policy "@ + path + ": json error: "@ + errors[0] + ", json5 fallback error: "@
            + errors[1]
    } else {
        "failed to parse policy "@ + path + " as yaml ("@ + errors[0] + ") json ("@ + errors[1]
            + ") or json5 ("@ + errors[2] + ")"@
    }
}

/// What is told of a policy file that cannot be read.
pub fn tell_policy_fault(path: &str, extension: &str, errors: &Vec<String>) -> (r: String)
    requires
        errors@.len() == formats_for(ascii_lower(extension@)).len(),
    ensures
        r@ == policy_fault(path@, formats_for(ascii_lower(extension@)), texts(errors@)),
{
    let formats = policy_formats(extension);
    let mut out: Vec<char> = Vec::new();
    if formats.len() == 1 {
        if formats[0] == PolicyFormat::Yaml {
            extend_str(&mut out, "invalid yaml policy ");
        } else {
            extend_str(&mut out, "invalid json5 policy ");
        }
        extend_str(&mut out, path);
    } else if formats.len() == 2 {
        extend_str(&mut out, "invalid json policy ");
        extend_str(&mut out, path);
        extend_str(&mut out, ": json error: ");
        extend_str(&mut out, errors[0].as_str());
        extend_str(&mut out, ", json5 fallback error: ");
        extend_str(&mut out, errors[1].as_str());
    } else {
        extend_str(&mut out, "failed to parse policy ");
        extend_str(&mut out, path);
        extend_str(&mut out, " as yaml (");
        extend_str(&mut out, errors[0].as_str());
        extend_str(&mut out, ") json (");
        extend_str(&mut out, errors[1].as_str());
        extend_str(&mut out, ") or json5 (");
        extend_str(&mut out, errors[2].as_str());
        extend_str(&mut out, ")");
    }
    let r = from_chars(&out);
    assert(r@ =~= policy_fault(path@, formats@, texts(errors@)));
    r
}

// ---------------------------------------------------------------------------
// Ages
// ---------------------------------------------------------------------------

/// Why a text is no age.
#[derive(Clone, Copy, Debug, PartialEq, Eq, Structural)]
pub enum AgeError {
    /// The text is empty.
    Empty,
    /// The text is not a number with a known unit.
    Invalid,
    /// The age does not fit in 64 bits of nanoseconds.
    TooLarge,
}

/// The seconds of the unit that a letter stands for.
pub open spec fn unit_seconds(c: char) -> Option<nat> {
    if c == 's' || c == 'S' {
        Some(1)
    } else if c == 'm' || c == 'M' {
        Some(60)
    } else if c == 'h' || c == 'H' {
        Some(3600)
    } else if c == 'd' || c == 'D' {
        Some(86400)
    } else {
        None
    }
}

/// The number and the seconds of the unit in an age; a bare number counts
/// seconds.
pub open spec fn age_parts(s: Seq<char>) -> Option<(Seq<char>, nat)>
    recommends
        s.len() > 0,
{
    match unit_seconds(s.last()) {
        Some(seconds) => Some((s.drop_last(), seconds)),
        None => if is_digit(s.last()) {
            Some((s, 1))
        } else {
            None
        },
    }
}

/// The nanoseconds that a text denotes.
pub open spec fn age_of(value: Seq<char>) -> Result<int, AgeError> {
    let s = stripped(value);
    if s.len() == 0 {
        Err(AgeError::Empty)
    } else {
        match age_parts(s) {
            None => Err(AgeError::Invalid),
            Some((digits, seconds)) => match bounded_number(digits, u128::MAX as nat) {
                None => Err(AgeError::Invalid),
                Some(n) => if n * seconds * 1_000_000_000 > i64::MAX {
                    Err(AgeError::TooLarge)
                } else {
                    Ok((n * seconds * 1_000_000_000) as int)
                },
            },
        }
    }
}

pub fn parse_age_value(value: &str) -> (r: Result<i64, AgeError>)
    ensures
        match r {
            Ok(n) => age_of(value@) == Ok::<int, AgeError>(n as int),
            Err(e) => age_of(value@) == Err::<int, AgeError>(e),
        },
{
    let chars = to_chars(value);
    let s = strip(&chars);
    if s.len() == 0 {
        return Err(AgeError::Empty);
    }
    let last: usize = s.len() - 1;
    let c = s[last];
    let (digits, seconds): (Vec<char>, u128) = if c == 's' || c == 'S' {
        (slice(&s, 0, last), 1)
    } else if c == 'm' || c == 'M' {
        (slice(&s, 0, last), 60)
    } else if c == 'h' || c == 'H' {
        (slice(&s, 0, last), 3600)
    } else if c == 'd' || c == 'D' {
        (slice(&s, 0, last), 86400)
    } else if digit_test(c) {
        (copy_chars(&s), 1)
    } else {
        return Err(AgeError::Invalid);
    };
    proof {
        assert(s@.subrange(0, last as int) =~= s@.drop_last());
        assert(age_parts(s@) == Some((digits@, seconds as nat)));
    }
    match parse_number(&digits, u128::MAX) {
        None => Err(AgeError::Invalid),
        Some(n) => {
            // The greatest number of seconds that fits, and no overflow below it.
            if n > 9_223_372_036u128 / seconds {
                proof {
                    assert(n * seconds > 9_223_372_036) by (nonlinear_arith)
                        requires
                            n > 9_223_372_036u128 / seconds,
                            seconds > 0,
                    ;
                }
                return Err(AgeError::TooLarge);
            }
            proof {
                assert(n * seconds <= 9_223_372_036) by (nonlinear_arith)
                    requires
                        n <= 9_223_372_036u128 / seconds,
                        seconds > 0,
                ;
            }
            let nanos: u128 = n * seconds * 1_000_000_000;
            Ok(nanos as i64)
        },
    }
}

impl AgeError {
    /// The message for a text that is no age.
    pub open spec fn message_for(self, value: Seq<char>) -> Seq<char> {
        match self {
            AgeError::Empty => "empty max-age value"@,
            AgeError::Invalid => "invalid max-age value '"@ + value + "'"@,
            AgeError::TooLarge => "max-age value is too large"@,
        }
    }

    pub fn message(&self, value: &str) -> (r: String)
        ensures
            r@ == self.message_for(value@),
    {
        match self {
            AgeError::Empty => "empty max-age value".to_owned(),
            AgeError::Invalid => {
                let mut text = "invalid max-age value '".to_owned();
                text.append(value);
                text.append("'");
                text
            },
            AgeError::TooLarge => "max-age value is too large".to_owned(),
        }
    }
}

} // verus!
