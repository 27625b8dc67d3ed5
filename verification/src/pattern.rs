//! Path patterns: literal paths, and globs with `*`, `?` and `**`.

use crate::policy::{below, is_below, is_within, policy_chars, policy_path, within};
use crate::text::{
    char_texts, find_char, from_chars, is_space, joined, lemma_pieces_clean, lemma_pieces_concat,
    lemma_pieces_single, pieces, split, strip, stripped, to_chars, trimmed_end, trimmed_start,
    words, CharClass,
};
use vstd::prelude::*;
use vstd::string::*;
use vstd::utf8::encode_utf8;

verus! {

/// A pattern that paths are chosen by.
#[derive(Clone, Debug, PartialEq, Eq)]
pub struct PatternSpec {
    /// The pattern, in the normal form of a path.
    pub pattern: String,
    /// Whether only what lies below a match is chosen, not the match itself.
    pub dir_only: bool,
}

/// The pattern and the kind that a text denotes: a slash at its end marks a
/// directory, and a text without segments denotes nothing.
pub open spec fn pattern_of(value: Seq<char>) -> Option<(Seq<char>, bool)> {
    let t = stripped(value);
    let p = policy_path(t);
    if t.len() == 0 || p.len() == 0 {
        None
    } else {
        Some((p, t.last() == '/'))
    }
}

/// A pattern as it is written.
pub open spec fn pattern_text(pattern: Seq<char>, dir_only: bool) -> Seq<char> {
    if dir_only {
        pattern.push('/')
    } else {
        pattern
    }
}

impl PatternSpec {
    pub open spec fn view(&self) -> (Seq<char>, bool) {
        (self.pattern@, self.dir_only)
    }

    pub fn parse(value: &str) -> (r: Option<Self>)
        ensures
            match r {
                Some(p) => pattern_of(value@) == Some(p@),
                None => pattern_of(value@) is None,
            },
    {
        let chars = to_chars(value);
        let t = strip(&chars);
        if t.len() == 0 {
            return None;
        }
        let dir_only = t[t.len() - 1] == '/';
        let p = policy_chars(&t);
        if p.len() == 0 {
            return None;
        }
        Some(PatternSpec { pattern: from_chars(&p), dir_only })
    }

    /// The pattern as it is written.
    pub fn display_value(&self) -> (r: String)
        ensures
            r@ == pattern_text(self.pattern@, self.dir_only),
    {
        let mut r = self.pattern.clone();
        if self.dir_only {
            r.push('/');
        }
        r
    }

    pub fn copy(&self) -> (r: Self)
        ensures
            r == *self,
    {
        PatternSpec { pattern: self.pattern.clone(), dir_only: self.dir_only }
    }
}

// ---------------------------------------------------------------------------
// Segments
// ---------------------------------------------------------------------------

/// Whether the bytes of a name match a pattern: `*` stands for any bytes, `?`
/// for one byte, and every other byte for itself.
pub open spec fn glob(p: Seq<u8>, v: Seq<u8>) -> bool
    decreases p.len(),
{
    if p.len() == 0 {
        v.len() == 0
    } else if p[0] == 42 {
        exists|k: int| 0 <= k <= v.len() && glob(p.drop_first(), #[trigger] v.skip(k))
    } else if p[0] == 63 {
        v.len() > 0 && glob(p.drop_first(), v.drop_first())
    } else {
        v.len() > 0 && p[0] == v[0] && glob(p.drop_first(), v.drop_first())
    }
}

/// Whether a name matches the pattern of one segment.
pub open spec fn segment_matches(p: Seq<char>, v: Seq<char>) -> bool {
    glob(encode_utf8(p), encode_utf8(v))
}

fn glob_from(p: &[u8], i: usize, v: &[u8], j: usize) -> (r: bool)
    requires
        i <= p@.len(),
        j <= v@.len(),
    ensures
        r == glob(p@.skip(i as int), v@.skip(j as int)),
    decreases p@.len() - i,
{
    let ghost ps = p@.skip(i as int);
    let ghost vs = v@.skip(j as int);
    if i == p.len() {
        return j == v.len();
    }
    proof {
        assert(ps.drop_first() =~= p@.skip(i + 1));
        assert(ps[0] == p@[i as int]);
        if j < v@.len() {
            assert(vs.drop_first() =~= v@.skip(j + 1));
            assert(vs[0] == v@[j as int]);
        }
    }
    let c: u8 = p[i];
    if c == 42 {
        let count: usize = p.len();
        let mut k: usize = j;
        loop
            invariant
                i < count == p@.len(),
                j <= k <= v@.len(),
                ps == p@.skip(i as int),
                vs == v@.skip(j as int),
                ps.drop_first() == p@.skip(i + 1),
                ps.len() > 0,
                ps[0] == 42,
                forall|m: int|
                    0 <= m < k - j ==> !glob(ps.drop_first(), #[trigger] vs.skip(m)),
            decreases v@.len() - k,
        {
            assert(vs.skip(k - j) =~= v@.skip(k as int));
            if glob_from(p, i + 1, v, k) {
                assert(glob(ps.drop_first(), vs.skip(k - j)));
                return true;
            }
            if k == v.len() {
                assert(forall|m: int|
                    0 <= m <= vs.len() ==> !glob(ps.drop_first(), #[trigger] vs.skip(m)));
                return false;
            }
            k = k + 1;
        }
    }
    if j == v.len() {
        return false;
    }
    (c == 63 || c == v[j]) && glob_from(p, i + 1, v, j + 1)
}

/// Whether a name matches the pattern of one segment.
pub fn match_path_segment(pattern: &str, value: &str) -> (r: bool)
    ensures
        r == segment_matches(pattern@, value@),
{
    let p = pattern.as_bytes();
    let v = value.as_bytes();
    proof {
        assert(p@.skip(0) =~= p@);
        assert(v@.skip(0) =~= v@);
    }
    glob_from(p, 0, v, 0)
}

// ---------------------------------------------------------------------------
// Paths
// ---------------------------------------------------------------------------

/// Whether the segments of a path match those of a pattern: `**` stands for
/// any segments.
pub open spec fn segments_match(p: Seq<Seq<char>>, v: Seq<Seq<char>>) -> bool
    decreases p.len(),
{
    if p.len() == 0 {
        v.len() == 0
    } else if p[0] == seq!['*', '*'] {
        p.len() == 1 || exists|k: int|
            0 <= k <= v.len() && segments_match(p.drop_first(), #[trigger] v.skip(k))
    } else {
        v.len() > 0 && segment_matches(p[0], v[0]) && segments_match(
            p.drop_first(),
            v.drop_first(),
        )
    }
}

fn match_path_components(
    p: &Vec<Vec<char>>,
    i: usize,
    v: &Vec<Vec<char>>,
    j: usize,
    end: usize,
) -> (r: bool)
    requires
        i <= p@.len(),
        j <= end <= v@.len(),
    ensures
        r == segments_match(
            char_texts(p@).skip(i as int),
            char_texts(v@).subrange(j as int, end as int),
        ),
    decreases p@.len() - i,
{
    let ghost ps = char_texts(p@).skip(i as int);
    let ghost vs = char_texts(v@).subrange(j as int, end as int);
    if i == p.len() {
        return j == end;
    }
    proof {
        assert(ps.drop_first() =~= char_texts(p@).skip(i + 1));
        assert(ps[0] == p@[i as int]@);
        if j < end {
            assert(vs.drop_first() =~= char_texts(v@).subrange(j + 1, end as int));
            assert(vs[0] == v@[j as int]@);
        }
    }
    let seg = &p[i];
    if seg.len() == 2 && seg[0] == '*' && seg[1] == '*' {
        assert(seg@ =~= seq!['*', '*']);
        if i + 1 == p.len() {
            return true;
        }
        let count: usize = p.len();
        let mut k: usize = j;
        loop
            invariant
                i + 1 < count == p@.len(),
                j <= k <= end <= v@.len(),
                ps == char_texts(p@).skip(i as int),
                vs == char_texts(v@).subrange(j as int, end as int),
                ps.drop_first() == char_texts(p@).skip(i + 1),
                ps.len() > 1,
                ps[0] == seq!['*', '*'],
                forall|m: int|
                    0 <= m < k - j ==> !segments_match(ps.drop_first(), #[trigger] vs.skip(m)),
            decreases end - k,
        {
            assert(vs.skip(k - j) =~= char_texts(v@).subrange(k as int, end as int));
            if match_path_components(p, i + 1, v, k, end) {
                assert(segments_match(ps.drop_first(), vs.skip(k - j)));
                return true;
            }
            if k == end {
                assert(forall|m: int|
                    0 <= m <= vs.len() ==> !segments_match(ps.drop_first(), #[trigger] vs.skip(m)));
                return false;
            }
            k = k + 1;
        }
    }
    if j == end {
        return false;
    }
    let pattern = from_chars(seg);
    let value = from_chars(&v[j]);
    match_path_segment(pattern.as_str(), value.as_str()) && match_path_components(
        p,
        i + 1,
        v,
        j + 1,
        end,
    )
}

/// Whether a path matches a pattern. A pattern without wildcards chooses its
/// path and what lies below it.
pub open spec fn pattern_matches(pattern: (Seq<char>, bool), rel_path: Seq<char>) -> bool {
    let p = policy_path(pattern.0);
    let v = policy_path(rel_path);
    let dir_only = pattern.1;
    if p.len() == 0 || v.len() == 0 {
        false
    } else if !p.contains('*') && !p.contains('?') {
        if dir_only {
            below(v, p)
        } else {
            within(v, p)
        }
    } else {
        let ps = pieces(p, CharClass::Is('/'));
        let vs = pieces(v, CharClass::Is('/'));
        if dir_only {
            exists|n: int| 1 <= n < vs.len() && #[trigger] segments_match(ps, vs.take(n))
        } else {
            segments_match(ps, vs)
        }
    }
}

pub fn path_pattern_matches_spec(pattern: &PatternSpec, rel_path: &str) -> (r: bool)
    ensures
        r == pattern_matches(pattern@, rel_path@),
{
    let raw = to_chars(pattern.pattern.as_str());
    let p = policy_chars(&raw);
    let raw = to_chars(rel_path);
    let v = policy_chars(&raw);
    if p.len() == 0 || v.len() == 0 {
        return false;
    }
    if find_char(&p, '*').is_none() && find_char(&p, '?').is_none() {
        return if pattern.dir_only {
            is_below(&v, &p)
        } else {
            is_within(&v, &p)
        };
    }
    proof {
        assert(p@.contains('*') || p@.contains('?'));
    }
    let ps = split(&p, &CharClass::Is('/'));
    let vs = split(&v, &CharClass::Is('/'));
    let ghost pt = char_texts(ps@);
    let ghost vt = char_texts(vs@);
    assert(pt.skip(0) =~= pt);
    if pattern.dir_only {
        let mut n: usize = 1;
        while n < vs.len()
            invariant
                1 <= n <= vs@.len(),
                pt == char_texts(ps@),
                vt == char_texts(vs@),
                pt.skip(0) == pt,
                p@ == policy_path(pattern.pattern@),
                v@ == policy_path(rel_path@),
                pt == pieces(p@, CharClass::Is('/')),
                vt == pieces(v@, CharClass::Is('/')),
                p@.len() > 0,
                v@.len() > 0,
                p@.contains('*') || p@.contains('?'),
                pattern.dir_only,
                forall|m: int| 1 <= m < n ==> !#[trigger] segments_match(pt, vt.take(m)),
            decreases vs@.len() - n,
        {
            assert(vt.take(n as int) =~= vt.subrange(0, n as int));
            if match_path_components(&ps, 0, &vs, 0, n) {
                assert(segments_match(pt, vt.take(n as int)));
                return true;
            }
            n = n + 1;
        }
        false
    } else {
        assert(vt.subrange(0, vs@.len() as int) =~= vt);
        match_path_components(&ps, 0, &vs, 0, vs.len())
    }
}

/// Whether one of the patterns matches a path.
pub open spec fn any_matches(patterns: Seq<PatternSpec>, rel_path: Seq<char>) -> bool {
    exists|i: int|
        0 <= i < patterns.len() && pattern_matches((#[trigger] patterns[i])@, rel_path)
}

pub fn any_pattern_matches(patterns: &[PatternSpec], rel_path: &str) -> (r: bool)
    ensures
        r == any_matches(patterns@, rel_path@),
{
    let mut i: usize = 0;
    while i < patterns.len()
        invariant
            i <= patterns@.len(),
            forall|k: int|
                0 <= k < i ==> !pattern_matches((#[trigger] patterns@[k])@, rel_path@),
        decreases patterns.len() - i,
    {
        if path_pattern_matches_spec(&patterns[i], rel_path) {
            assert(pattern_matches(patterns@[i as int]@, rel_path@));
            return true;
        }
        i = i + 1;
    }
    false
}

// ---------------------------------------------------------------------------
// Laws
// ---------------------------------------------------------------------------

/// No piece that is kept is empty or holds a separator.
pub proof fn lemma_words_clean(s: Seq<char>, c: char, k: int)
    requires
        0 <= k < words(s, CharClass::Is(c)).len(),
    ensures
        words(s, CharClass::Is(c))[k].len() > 0,
        !words(s, CharClass::Is(c))[k].contains(c),
{
    let class = CharClass::Is(c);
    let all = pieces(s, class);
    let keep = |p: Seq<char>| p.len() > 0;
    let w = all.filter(keep)[k];
    all.lemma_filter_pred(keep, k);
    assert(all.contains(w)) by {
        all.lemma_filter_contains_rev(keep, w);
    }
    let m = choose|m: int| 0 <= m < all.len() && all[m] == w;
    if w.contains(c) {
        let i = choose|i: int| 0 <= i < w.len() && w[i] == c;
        lemma_pieces_clean(s, class, m, i);
    }
}

proof fn lemma_stripped_stays(s: Seq<char>, c: char)
    requires
        s.len() > 0,
        stripped(s) == s,
        !is_space(c),
    ensures
        stripped(s.push(c)) == s.push(c),
        !is_space(s[0]),
{
    let class = CharClass::Space;
    let t = s.push(c);
    lemma_trimmed_len(s, class);
    assert(t[0] == s[0]);
    assert(t.last() == c);
}

/// Trimming never lengthens a text, and a text that keeps its length starts
/// and ends outside the class.
proof fn lemma_trimmed_len(s: Seq<char>, class: CharClass)
    ensures
        trimmed_start(s, class).len() <= s.len(),
        trimmed_end(s, class).len() <= s.len(),
        s.len() > 0 && trimmed_end(trimmed_start(s, class), class) == s ==> !class.has(s[0])
            && !class.has(s.last()),
    decreases s.len(),
{
    if s.len() > 0 {
        lemma_trimmed_len(s.drop_first(), class);
        lemma_trimmed_len(s.drop_last(), class);
        let t = trimmed_start(s, class);
        if t.len() < s.len() {
            lemma_trimmed_len(t, class);
        }
    }
}

/// A pattern that is written down and read again is the same pattern. (White
/// space at the edge of a pattern is lost in reading, so it must have none.)
pub proof fn law_pattern_round_trip(pattern: Seq<char>, dir_only: bool)
    requires
        pattern.len() > 0,
        policy_path(pattern) == pattern,
        stripped(pattern) == pattern,
    ensures
        pattern_of(pattern_text(pattern, dir_only)) == Some((pattern, dir_only)),
{
    let class = CharClass::Is('/');
    let keep = |p: Seq<char>| p.len() > 0;
    if dir_only {
        let t = pattern.push('/');
        lemma_stripped_stays(pattern, '/');
        lemma_pieces_concat(pattern, Seq::empty(), '/');
        assert(pattern + seq!['/'] + Seq::<char>::empty() =~= t);
        let all = pieces(t, class);
        let single = pieces(Seq::<char>::empty(), class);
        assert(all == pieces(pattern, class) + single);
        assert(single =~= seq![Seq::<char>::empty()]);
        Seq::filter_distributes_over_add(pieces(pattern, class), single, keep);
        assert(single.filter(keep) =~= Seq::empty()) by {
            reveal_with_fuel(Seq::filter, 2);
            assert(single.drop_last() =~= Seq::empty());
        }
        assert(words(t, class) =~= words(pattern, class));
    } else {
        let w = words(pattern, class);
        let n = w.len() as int;
        assert(joined(w, seq!['/']) == pattern);
        assert(n > 0);
        lemma_words_clean(pattern, '/', n - 1);
        let last = w[n - 1];
        assert(pattern.last() == last.last()) by {
            if n == 1 {
                assert(joined(w, seq!['/']) == w[0]);
            } else {
                assert(joined(w, seq!['/']) == joined(w.drop_last(), seq!['/']) + seq!['/']
                    + w.last());
            }
        }
        assert(last.contains(last.last()));
    }
}

/// A pattern `**` matches every path.
pub proof fn law_double_star(rel_path: Seq<char>)
    requires
        policy_path(rel_path).len() > 0,
    ensures
        pattern_matches((seq!['*', '*'], false), rel_path),
{
    let p = seq!['*', '*'];
    let class = CharClass::Is('/');
    let keep = |w: Seq<char>| w.len() > 0;
    assert(p[0] == '*');
    assert(p.contains('*'));
    assert(stripped(p) == p);
    lemma_pieces_single(p, class);
    assert(words(p, class) =~= seq![p]) by {
        reveal_with_fuel(Seq::filter, 2);
        assert(seq![p].drop_last() =~= Seq::empty());
    }
    assert(policy_path(p) == p);
}

} // verus!
