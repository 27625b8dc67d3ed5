//! Comparison of the members of two archives: the same paths, paths below one
//! another, and the families of what they hold.

use crate::filter::{lemma_filter_start, lemma_filter_step};
use crate::order::pair_lt;
use crate::ratio::Ratio;
use crate::text::{from_chars, same, slice, starts_with, text_lt, texts, to_chars};
use crate::textmap::{
    ascending, lemma_ascending_distinct, lemma_ascending_unique, lemma_filter_ascending,
    lemma_sorted_set, lemma_sorted_set_unique, sorted_set, TextMap, TextSet,
};
use vstd::prelude::*;

verus! {

/// A member of an archive.
#[derive(Debug)]
pub struct ArchiveMemberRow {
    pub path: String,
    pub depth: usize,
    pub payload_family: String,
}

/// How much two archives have in common.
#[derive(Clone, Copy, Debug, PartialEq, Eq, Structural)]
pub struct OverlapScores {
    pub exact_overlap_score: Ratio,
    pub nested_overlap_score: Ratio,
    pub depth_weighted_overlap_score: Ratio,
}

/// A path of the left archive and one of the right.
#[derive(Debug, PartialEq, Eq)]
pub struct PathPair {
    pub lhs_path: String,
    pub rhs_path: String,
}

/// What two archives agree and disagree on.
#[derive(Debug)]
pub struct ConflictBuckets {
    pub exact_path_overlap: Vec<String>,
    pub nested_path_overlap: Vec<PathPair>,
    pub path_payload_conflict: Vec<String>,
    pub payload_family_only_overlap: Vec<String>,
}

#[derive(Debug)]
pub struct ArchiveCompareReport {
    pub left_count: usize,
    pub right_count: usize,
    pub scores: OverlapScores,
    pub buckets: ConflictBuckets,
}

// ---------------------------------------------------------------------------
// Paths
// ---------------------------------------------------------------------------

/// The paths of the members.
pub open spec fn member_paths(rows: Seq<ArchiveMemberRow>) -> Seq<Seq<char>> {
    rows.map_values(|row: ArchiveMemberRow| row.path@)
}

/// The families of the members.
pub open spec fn member_families(rows: Seq<ArchiveMemberRow>) -> Seq<Seq<char>> {
    rows.map_values(|row: ArchiveMemberRow| row.payload_family@)
}

/// The paths of both archives, in order.
pub open spec fn exact_paths(
    left: Seq<ArchiveMemberRow>,
    right: Seq<ArchiveMemberRow>,
) -> Seq<Seq<char>> {
    sorted_set(member_paths(left)).filter(|p: Seq<char>| member_paths(right).contains(p))
}

/// The paths of either archive, in order.
pub open spec fn union_paths(
    left: Seq<ArchiveMemberRow>,
    right: Seq<ArchiveMemberRow>,
) -> Seq<Seq<char>> {
    sorted_set(member_paths(left) + member_paths(right))
}

/// Whether a path lies below another.
pub open spec fn is_ancestor(above: Seq<char>, path: Seq<char>) -> bool {
    above.len() > 0 && starts_with(path, above + seq!['/'])
}

/// Whether a path that only the left archive has lies below one of the right.
pub open spec fn left_below(l: Seq<char>, r: Seq<char>, lp: Seq<Seq<char>>, rp: Seq<Seq<char>>) -> bool {
    lp.contains(l) && !rp.contains(l) && rp.contains(r) && is_ancestor(r, l)
}

/// Whether a path of the left archive and one of the right lie below one
/// another, the lower one in one archive only.
pub open spec fn is_nested(l: Seq<char>, r: Seq<char>, lp: Seq<Seq<char>>, rp: Seq<Seq<char>>) -> bool {
    left_below(l, r, lp, rp) || left_below(r, l, rp, lp)
}

/// Adds the paths of the members.
fn add_paths(set: &mut TextSet, rows: &Vec<ArchiveMemberRow>)
    requires
        old(set).wf(),
    ensures
        final(set).wf(),
        forall|p: Seq<char>|
            #[trigger] final(set)@.contains(p) <==> old(set)@.contains(p) || member_paths(
                rows@,
            ).contains(p),
{
    let ghost start = set@;
    let mut i: usize = 0;
    assert(member_paths(rows@).take(0) =~= Seq::empty());
    while i < rows.len()
        invariant
            i <= rows@.len(),
            set.wf(),
            forall|p: Seq<char>|
                #[trigger] set@.contains(p) <==> start.contains(p) || member_paths(rows@).take(
                    i as int,
                ).contains(p),
        decreases rows@.len() - i,
    {
        set.insert(rows[i].path.clone());
        proof {
            lemma_contains_next(member_paths(rows@), i as int);
        }
        i = i + 1;
    }
    assert(member_paths(rows@).take(i as int) =~= member_paths(rows@));
}

fn collect_paths(rows: &Vec<ArchiveMemberRow>) -> (r: TextSet)
    ensures
        r.wf(),
        r.seq() == sorted_set(member_paths(rows@)),
        forall|p: Seq<char>| #[trigger] r@.contains(p) <==> member_paths(rows@).contains(p),
{
    let mut r = TextSet::new();
    add_paths(&mut r, rows);
    proof {
        assert forall|p: Seq<char>| r.seq().contains(p) <==> member_paths(rows@).contains(p) by {
            assert(r@.contains(p) <==> r.seq().contains(p));
        }
        lemma_sorted_set_unique(r.seq(), member_paths(rows@));
    }
    r
}

fn collect_families(rows: &Vec<ArchiveMemberRow>) -> (r: TextSet)
    ensures
        r.wf(),
        r.seq() == sorted_set(member_families(rows@)),
        forall|p: Seq<char>| #[trigger] r@.contains(p) <==> member_families(rows@).contains(p),
{
    let mut r = TextSet::new();
    let mut i: usize = 0;
    assert(member_families(rows@).take(0) =~= Seq::empty());
    while i < rows.len()
        invariant
            i <= rows@.len(),
            r.wf(),
            forall|p: Seq<char>|
                #[trigger] r@.contains(p) <==> member_families(rows@).take(i as int).contains(p),
        decreases rows@.len() - i,
    {
        r.insert(rows[i].payload_family.clone());
        proof {
            lemma_contains_next(member_families(rows@), i as int);
        }
        i = i + 1;
    }
    proof {
        assert(member_families(rows@).take(i as int) =~= member_families(rows@));
        assert forall|p: Seq<char>| r.seq().contains(p) <==> member_families(rows@).contains(p) by {
            assert(r@.contains(p) <==> r.seq().contains(p));
        }
        lemma_sorted_set_unique(r.seq(), member_families(rows@));
    }
    r
}

proof fn lemma_contains_next(s: Seq<Seq<char>>, i: int)
    requires
        0 <= i < s.len(),
    ensures
        forall|p: Seq<char>|
            #[trigger] s.take(i + 1).contains(p) <==> s.take(i).contains(p) || p == s[i],
{
    assert forall|p: Seq<char>| #[trigger] s.take(i + 1).contains(p) <==> s.take(i).contains(p) || p
        == s[i] by {
        if s.take(i).contains(p) {
            let k = s.take(i).index_of(p);
            assert(s.take(i + 1)[k] == p);
        }
        if s.take(i + 1).contains(p) {
            let k = s.take(i + 1).index_of(p);
            if k < i {
                assert(s.take(i)[k] == p);
            }
        }
        assert(s.take(i + 1)[i] == s[i]);
    }
}

/// The texts of one set that another holds too, in order.
fn intersect(a: &TextSet, b: &TextSet) -> (r: Vec<String>)
    requires
        a.wf(),
        b.wf(),
    ensures
        texts(r@) == a.seq().filter(|p: Seq<char>| b@.contains(p)),
{
    let ghost keep = |p: Seq<char>| b@.contains(p);
    let mut r: Vec<String> = Vec::new();
    let mut i: usize = 0;
    proof {
        lemma_filter_start(a.seq(), keep);
        assert(texts(r@) =~= Seq::empty());
    }
    while i < a.len()
        invariant
            a.wf(),
            b.wf(),
            i <= a.seq().len(),
            keep == (|p: Seq<char>| b@.contains(p)),
            texts(r@) == a.seq().take(i as int).filter(keep),
        decreases a.seq().len() - i,
    {
        proof {
            lemma_filter_step(a.seq(), keep, i as int);
        }
        if b.contains(a.at(i).as_str()) {
            let ghost before = texts(r@);
            r.push(a.at(i).clone());
            assert(texts(r@) =~= before.push(a.seq()[i as int]));
        }
        i = i + 1;
    }
    assert(a.seq().take(i as int) =~= a.seq());
    r
}

// ---------------------------------------------------------------------------
// Nested paths
// ---------------------------------------------------------------------------

/// Pairs of texts, in order.
struct PairSet {
    map: TextMap<TextSet>,
    rights: TextSet,
}

impl PairSet {
    spec fn wf(&self) -> bool {
        &&& self.map.wf()
        &&& self.rights.wf()
        &&& forall|l: Seq<char>| #[trigger] self.map@.contains_key(l) ==> self.map@[l].wf()
    }

    spec fn has(&self, l: Seq<char>, r: Seq<char>) -> bool {
        self.map@.contains_key(l) && self.map@[l]@.contains(r)
    }

    /// Every left text has a partner, and the right texts are those that have one.
    spec fn full(&self) -> bool {
        &&& forall|l: Seq<char>|
            #[trigger] self.map@.contains_key(l) ==> exists|r: Seq<char>| self.has(l, r)
        &&& forall|r: Seq<char>|
            #[trigger] self.rights@.contains(r) <==> exists|l: Seq<char>| self.has(l, r)
    }

    fn new() -> (s: Self)
        ensures
            s.wf(),
            s.full(),
            forall|l: Seq<char>, r: Seq<char>| !#[trigger] s.has(l, r),
    {
        PairSet { map: TextMap::new(), rights: TextSet::new() }
    }

    fn holds(&self, l: &str, r: &str) -> (b: bool)
        requires
            self.wf(),
        ensures
            b == self.has(l@, r@),
    {
        match self.map.get(l) {
            Some(set) => set.contains(r),
            None => false,
        }
    }

    fn insert(&mut self, l: String, r: String)
        requires
            old(self).wf(),
            old(self).full(),
        ensures
            final(self).wf(),
            final(self).full(),
            forall|a: Seq<char>, b: Seq<char>|
                #[trigger] final(self).has(a, b) <==> old(self).has(a, b) || (a == l@ && b == r@),
    {
        let ghost before = *self;
        let ghost lt = l@;
        let ghost rt = r@;
        self.rights.insert(r.clone());
        let i = self.map.find_or_insert(l, TextSet::new());
        let ghost middle = self.map;
        proof {
            middle.lemma_entries();
            assert(middle@.contains_key(lt));
            assert(middle@[lt] == middle.value_seq()[i as int]);
        }
        let set = self.map.value_mut(i);
        set.insert(r);
        proof {
            TextMap::lemma_updated(middle, self.map, i as int);
            assert forall|a: Seq<char>, b: Seq<char>| #[trigger] self.has(a, b) <==> before.has(
                a,
                b,
            ) || (a == lt && b == rt) by {
                if a != lt {
                    assert(self.map@.contains_key(a) <==> before.map@.contains_key(a));
                }
            }
            assert forall|a: Seq<char>| #[trigger] self.map@.contains_key(a) implies exists|
                b: Seq<char>,
            | self.has(a, b) by {
                if a == lt {
                    assert(self.has(a, rt));
                } else {
                    assert(before.map@.contains_key(a));
                    let b = choose|b: Seq<char>| before.has(a, b);
                    assert(self.has(a, b));
                }
            }
            assert forall|b: Seq<char>| #[trigger] self.rights@.contains(b) <==> exists|
                a: Seq<char>,
            | self.has(a, b) by {
                if self.rights@.contains(b) {
                    if b == rt {
                        assert(self.has(lt, b));
                    } else {
                        assert(before.rights@.contains(b));
                        let a = choose|a: Seq<char>| before.has(a, b);
                        assert(self.has(a, b));
                    }
                }
                if exists|a: Seq<char>| self.has(a, b) {
                    let a = choose|a: Seq<char>| self.has(a, b);
                    if b != rt {
                        assert(before.has(a, b));
                        assert(before.rights@.contains(b));
                    }
                }
            }
        }
    }
}

/// Adds the pairs of the paths of one archive that lie below paths of the
/// other; `swap` where the lower path is the right one.
fn add_nested(pairs: &mut PairSet, lower: &TextSet, upper: &TextSet, swap: bool)
    requires
        old(pairs).wf(),
        old(pairs).full(),
        lower.wf(),
        upper.wf(),
    ensures
        final(pairs).wf(),
        final(pairs).full(),
        forall|a: Seq<char>, b: Seq<char>|
            #[trigger] final(pairs).has(a, b) <==> old(pairs).has(a, b) || (if swap {
                left_below(b, a, lower.seq(), upper.seq())
            } else {
                left_below(a, b, lower.seq(), upper.seq())
            }),
{
    let ghost start = *pairs;
    let ghost ls = lower.seq();
    let ghost us = upper.seq();
    let mut i: usize = 0;
    while i < lower.len()
        invariant
            pairs.wf(),
            pairs.full(),
            lower.wf(),
            upper.wf(),
            ls == lower.seq(),
            us == upper.seq(),
            i <= ls.len(),
            forall|a: Seq<char>, b: Seq<char>|
                #[trigger] pairs.has(a, b) <==> start.has(a, b) || (if swap {
                    ls.take(i as int).contains(b) && left_below(b, a, ls, us)
                } else {
                    ls.take(i as int).contains(a) && left_below(a, b, ls, us)
                }),
        decreases ls.len() - i,
    {
        let path = lower.at(i);
        let ghost p = path@;
        let ghost outer = *pairs;
        proof {
            lemma_contains_next(ls, i as int);
            assert(ls.contains(p));
            assert(us.contains(p) <==> upper@.contains(p));
            lemma_ascending_distinct(ls);
        }
        if !upper.contains(path.as_str()) {
            let chars = to_chars(path.as_str());
            let mut k: usize = 1;
            while k < chars.len()
                invariant
                    pairs.wf(),
                    pairs.full(),
                    upper.wf(),
                    us == upper.seq(),
                    ls.contains(p),
                    !us.contains(p),
                    chars@ == p,
                    path@ == p,
                    1 <= k,
                    forall|a: Seq<char>, b: Seq<char>|
                        #[trigger] pairs.has(a, b) <==> outer.has(a, b) || (if swap {
                            b == p && left_below(b, a, ls, us) && a.len() < k
                        } else {
                            a == p && left_below(a, b, ls, us) && b.len() < k
                        }),
                decreases chars@.len() - k,
            {
                let ghost inner = *pairs;
                let ghost lead = p.take(k as int);
                proof {
                    assert forall|x: Seq<char>|
                        x.len() == k && us.contains(x) implies #[trigger] left_below(p, x, ls, us)
                        == (x == lead && p[k as int] == '/') by {
                        lemma_ancestor_at(x, p, k as int);
                    }
                }
                if chars[k] == '/' {
                    let prefix = slice(&chars, 0, k);
                    assert(prefix@ =~= lead);
                    let prefix = from_chars(&prefix);
                    if upper.contains(prefix.as_str()) {
                        proof {
                            assert(us.contains(lead));
                            lemma_ancestor_at(lead, p, k as int);
                            assert(left_below(p, lead, ls, us));
                        }
                        if swap {
                            pairs.insert(prefix, path.clone());
                        } else {
                            pairs.insert(path.clone(), prefix);
                        }
                    }
                }
                proof {
                    assert(us.contains(lead) <==> upper@.contains(lead));
                    assert forall|a: Seq<char>, b: Seq<char>| #[trigger] pairs.has(a, b)
                        <==> outer.has(a, b) || (if swap {
                        b == p && left_below(b, a, ls, us) && a.len() < k + 1
                    } else {
                        a == p && left_below(a, b, ls, us) && b.len() < k + 1
                    }) by {
                        assert(inner.has(a, b) <==> outer.has(a, b) || (if swap {
                            b == p && left_below(b, a, ls, us) && a.len() < k
                        } else {
                            a == p && left_below(a, b, ls, us) && b.len() < k
                        }));
                        let x = if swap { a } else { b };
                        if x.len() == k && us.contains(x) {
                            assert(left_below(p, x, ls, us) == (x == lead && p[k as int] == '/'));
                        }
                    }
                }
                k = k + 1;
            }
            proof {
                assert forall|x: Seq<char>| left_below(p, x, ls, us) implies x.len() < k by {
                    assert(p.len() >= x.len() + 1);
                }
            }
        }
        proof {
            assert forall|a: Seq<char>, b: Seq<char>| #[trigger] pairs.has(a, b) <==> start.has(
                a,
                b,
            ) || (if swap {
                ls.take(i as int + 1).contains(b) && left_below(b, a, ls, us)
            } else {
                ls.take(i as int + 1).contains(a) && left_below(a, b, ls, us)
            }) by {
                assert(outer.has(a, b) <==> start.has(a, b) || (if swap {
                    ls.take(i as int).contains(b) && left_below(b, a, ls, us)
                } else {
                    ls.take(i as int).contains(a) && left_below(a, b, ls, us)
                }));
            }
        }
        i = i + 1;
    }
    proof {
        assert(ls.take(i as int) =~= ls);
    }
}

/// A path lies below a text of length `k` exactly where the text is its start
/// and a slash follows.
proof fn lemma_ancestor_at(above: Seq<char>, path: Seq<char>, k: int)
    requires
        above.len() == k,
        0 < k < path.len(),
    ensures
        is_ancestor(above, path) <==> above == path.take(k) && path[k] == '/',
{
    let lead = above + seq!['/'];
    let part = path.subrange(0, k + 1);
    if is_ancestor(above, path) {
        assert(part == lead);
        assert(part[k] == '/');
        assert(above =~= path.take(k)) by {
            assert forall|i: int| 0 <= i < k implies above[i] == path.take(k)[i] by {
                assert(part[i] == lead[i]);
            }
        }
    }
    if above == path.take(k) && path[k] == '/' {
        assert(part =~= lead);
    }
}


/// The pairs are in order, each once.
pub open spec fn pairs_ascending(s: Seq<(Seq<char>, Seq<char>)>) -> bool {
    forall|i: int, j: int| 0 <= i < j < s.len() ==> pair_lt(#[trigger] s[i], #[trigger] s[j])
}

/// The pairs by their texts.
pub open spec fn pair_texts(v: Seq<PathPair>) -> Seq<(Seq<char>, Seq<char>)> {
    v.map_values(|p: PathPair| (p.lhs_path@, p.rhs_path@))
}

/// The left texts of pairs.
pub open spec fn left_texts(v: Seq<PathPair>) -> Seq<Seq<char>> {
    v.map_values(|p: PathPair| p.lhs_path@)
}

/// The right texts of pairs.
pub open spec fn right_texts(v: Seq<PathPair>) -> Seq<Seq<char>> {
    v.map_values(|p: PathPair| p.rhs_path@)
}

/// The pairs of a set, in order.
fn list_pairs(pairs: &PairSet) -> (v: Vec<PathPair>)
    requires
        pairs.wf(),
    ensures
        pairs_ascending(pair_texts(v@)),
        forall|l: Seq<char>, r: Seq<char>|
            #[trigger] pair_texts(v@).contains((l, r)) <==> pairs.has(l, r),
{
    let mut v: Vec<PathPair> = Vec::new();
    let ghost keys = pairs.map.key_seq();
    let mut i: usize = 0;
    proof {
        pairs.map.lemma_entries();
        assert(keys.take(0) =~= Seq::empty());
        assert(pair_texts(v@) =~= Seq::empty());
    }
    while i < pairs.map.len()
        invariant
            pairs.wf(),
            keys == pairs.map.key_seq(),
            i <= keys.len(),
            pairs_ascending(pair_texts(v@)),
            forall|l: Seq<char>, r: Seq<char>|
                #[trigger] pair_texts(v@).contains((l, r)) <==> keys.take(i as int).contains(l)
                    && pairs.has(l, r),
        decreases keys.len() - i,
    {
        let key = pairs.map.key_at(i);
        let set = pairs.map.value_at(i);
        let ghost k = key@;
        proof {
            pairs.map.lemma_entries();
            lemma_ascending_distinct(keys);
            lemma_contains_next(keys, i as int);
            assert(pairs.map@.contains_key(k));
            assert(pairs.map@[k] == *set);
            assert(!keys.take(i as int).contains(k));
        }
        let ghost outer = pair_texts(v@);
        let mut j: usize = 0;
        assert(set.seq().take(0) =~= Seq::empty());
        while j < set.len()
            invariant
                set.wf(),
                j <= set.seq().len(),
                k == key@,
                keys == pairs.map.key_seq(),
                ascending(keys),
                i < keys.len(),
                k == keys[i as int],
                pairs_ascending(pair_texts(v@)),
                forall|l: Seq<char>, r: Seq<char>|
                    #[trigger] outer.contains((l, r)) ==> keys.take(i as int).contains(l),
                forall|l: Seq<char>, r: Seq<char>|
                    #[trigger] pair_texts(v@).contains((l, r)) <==> outer.contains((l, r)) || (l
                        == k && set.seq().take(j as int).contains(r)),
            decreases set.seq().len() - j,
        {
            let ghost before = pair_texts(v@);
            let item = set.at(j);
            let ghost new = (k, item@);
            v.push(PathPair { lhs_path: key.clone(), rhs_path: item.clone() });
            proof {
                let after = pair_texts(v@);
                assert(after =~= before.push(new));
                lemma_contains_next(set.seq(), j as int);
                assert forall|a: int| 0 <= a < before.len() implies pair_lt(
                    #[trigger] before[a],
                    new,
                ) by {
                    let (l, r) = before[a];
                    assert(before.contains((l, r)));
                    if outer.contains((l, r)) {
                        let b = keys.take(i as int).index_of(l);
                        assert(keys[b] == l);
                        assert(text_lt(keys[b], keys[i as int]));
                    } else {
                        let b = set.seq().take(j as int).index_of(r);
                        assert(set.seq()[b] == r);
                        assert(text_lt(set.seq()[b], set.seq()[j as int]));
                    }
                }
                assert forall|a: int, b: int| 0 <= a < b < after.len() implies pair_lt(
                    #[trigger] after[a],
                    #[trigger] after[b],
                ) by {
                    assert(after[a] == before[a]);
                    if b < before.len() {
                        assert(after[b] == before[b]);
                    }
                }
                assert forall|l: Seq<char>, r: Seq<char>| #[trigger] after.contains((l, r))
                    <==> before.contains((l, r)) || (l, r) == new by {
                    if before.contains((l, r)) {
                        let a = before.index_of((l, r));
                        assert(after[a] == (l, r));
                    }
                    assert(after[before.len() as int] == new);
                    if after.contains((l, r)) {
                        let a = after.index_of((l, r));
                        if a < before.len() {
                            assert(before[a] == (l, r));
                        }
                    }
                }
            }
            j = j + 1;
        }
        proof {
            assert(set.seq().take(j as int) =~= set.seq());
            assert forall|l: Seq<char>, r: Seq<char>| #[trigger] pair_texts(v@).contains((l, r))
                <==> keys.take(i as int + 1).contains(l) && pairs.has(l, r) by {
                assert(outer.contains((l, r)) <==> keys.take(i as int).contains(l) && pairs.has(l, r));
                assert(set@.contains(r) <==> set.seq().contains(r));
            }
        }
        i = i + 1;
    }
    proof {
        pairs.map.lemma_entries();
        assert(keys.take(i as int) =~= keys);
    }
    v
}

/// The distinct left and right texts of a full set of pairs.
proof fn lemma_sides(pairs: &PairSet, v: Seq<PathPair>)
    requires
        pairs.wf(),
        pairs.full(),
        forall|l: Seq<char>, r: Seq<char>|
            #[trigger] pair_texts(v).contains((l, r)) <==> pairs.has(l, r),
    ensures
        pairs.map.key_seq() == sorted_set(left_texts(v)),
        pairs.rights.seq() == sorted_set(right_texts(v)),
{
    pairs.map.lemma_entries();
    let keys = pairs.map.key_seq();
    assert forall|l: Seq<char>| keys.contains(l) <==> left_texts(v).contains(l) by {
        assert(pairs.map@.contains_key(l) <==> keys.contains(l));
        if keys.contains(l) {
            let r = choose|r: Seq<char>| pairs.has(l, r);
            assert(pair_texts(v).contains((l, r)));
            let i = pair_texts(v).index_of((l, r));
            assert(left_texts(v)[i] == l);
        }
        if left_texts(v).contains(l) {
            let i = left_texts(v).index_of(l);
            assert(pair_texts(v)[i] == (l, v[i].rhs_path@));
            assert(pair_texts(v).contains((l, v[i].rhs_path@)));
            assert(pairs.has(l, v[i].rhs_path@));
        }
    }
    lemma_sorted_set_unique(keys, left_texts(v));
    let rights = pairs.rights.seq();
    assert forall|r: Seq<char>| rights.contains(r) <==> right_texts(v).contains(r) by {
        assert(pairs.rights@.contains(r) <==> rights.contains(r));
        if rights.contains(r) {
            let l = choose|l: Seq<char>| pairs.has(l, r);
            assert(pair_texts(v).contains((l, r)));
            let i = pair_texts(v).index_of((l, r));
            assert(right_texts(v)[i] == r);
        }
        if right_texts(v).contains(r) {
            let i = right_texts(v).index_of(r);
            assert(pair_texts(v)[i] == (v[i].lhs_path@, r));
            assert(pair_texts(v).contains((v[i].lhs_path@, r)));
            assert(pairs.has(v[i].lhs_path@, r));
        }
    }
    lemma_sorted_set_unique(rights, right_texts(v));
}

// ---------------------------------------------------------------------------
// Depths
// ---------------------------------------------------------------------------

/// The greatest depth at which a path stands, zero where it does not.
pub open spec fn max_depth(rows: Seq<ArchiveMemberRow>, path: Seq<char>) -> int
    decreases rows.len(),
{
    if rows.len() == 0 {
        0
    } else {
        let d = max_depth(rows.drop_last(), path);
        if rows.last().path@ == path && rows.last().depth > d {
            rows.last().depth as int
        } else {
            d
        }
    }
}

/// The weight of a path: one more than its greatest depth on either side.
pub open spec fn path_weight(
    left: Seq<ArchiveMemberRow>,
    right: Seq<ArchiveMemberRow>,
    path: Seq<char>,
) -> int {
    let l = max_depth(left, path);
    let r = max_depth(right, path);
    if l < r {
        r + 1
    } else {
        l + 1
    }
}

/// The sum of the weights of paths.
pub open spec fn total_weight(
    paths: Seq<Seq<char>>,
    left: Seq<ArchiveMemberRow>,
    right: Seq<ArchiveMemberRow>,
) -> int
    decreases paths.len(),
{
    if paths.len() == 0 {
        0
    } else {
        total_weight(paths.drop_last(), left, right) + path_weight(left, right, paths.last())
    }
}

spec fn depth_in(map: &TextMap<usize>, path: Seq<char>) -> int {
    if map@.contains_key(path) {
        map@[path] as int
    } else {
        0
    }
}

fn depth_map(rows: &Vec<ArchiveMemberRow>) -> (r: TextMap<usize>)
    ensures
        r.wf(),
        forall|p: Seq<char>| #[trigger] depth_in(&r, p) == max_depth(rows@, p),
{
    let mut r: TextMap<usize> = TextMap::new();
    let mut i: usize = 0;
    assert(rows@.take(0) =~= Seq::empty());
    while i < rows.len()
        invariant
            i <= rows@.len(),
            r.wf(),
            forall|p: Seq<char>| #[trigger] depth_in(&r, p) == max_depth(rows@.take(i as int), p),
        decreases rows@.len() - i,
    {
        let ghost before = r;
        let depth = rows[i].depth;
        let ghost path = rows[i as int].path@;
        let more = match r.get(rows[i].path.as_str()) {
            Some(d) => *d < depth,
            None => true,
        };
        if more {
            r.insert(rows[i].path.clone(), depth);
        }
        proof {
            let next = rows@.take(i as int + 1);
            assert(next.drop_last() =~= rows@.take(i as int));
            assert forall|p: Seq<char>| #[trigger] depth_in(&r, p) == max_depth(next, p) by {
                assert(depth_in(&before, p) == max_depth(rows@.take(i as int), p));
            }
        }
        i = i + 1;
    }
    assert(rows@.take(i as int) =~= rows@);
    r
}

fn depth_of(map: &TextMap<usize>, path: &str) -> (r: usize)
    requires
        map.wf(),
    ensures
        r == depth_in(map, path@),
{
    match map.get(path) {
        Some(d) => *d,
        None => 0,
    }
}

proof fn lemma_weight_bound(
    paths: Seq<Seq<char>>,
    left: Seq<ArchiveMemberRow>,
    right: Seq<ArchiveMemberRow>,
)
    ensures
        paths.len() <= total_weight(paths, left, right) <= paths.len() * 0x1_0000_0000_0000_0000,
    decreases paths.len(),
{
    if paths.len() > 0 {
        lemma_weight_bound(paths.drop_last(), left, right);
        lemma_depth_bound(left, paths.last());
        lemma_depth_bound(right, paths.last());
    }
}

proof fn lemma_depth_bound(rows: Seq<ArchiveMemberRow>, path: Seq<char>)
    ensures
        0 <= max_depth(rows, path) <= usize::MAX,
    decreases rows.len(),
{
    if rows.len() > 0 {
        lemma_depth_bound(rows.drop_last(), path);
    }
}

fn weigh(
    paths: &Vec<String>,
    left_depths: &TextMap<usize>,
    right_depths: &TextMap<usize>,
    left: &Vec<ArchiveMemberRow>,
    right: &Vec<ArchiveMemberRow>,
) -> (r: u128)
    requires
        left_depths.wf(),
        right_depths.wf(),
        forall|p: Seq<char>| #[trigger] depth_in(left_depths, p) == max_depth(left@, p),
        forall|p: Seq<char>| #[trigger] depth_in(right_depths, p) == max_depth(right@, p),
    ensures
        r == total_weight(texts(paths@), left@, right@),
{
    let mut r: u128 = 0;
    let mut i: usize = 0;
    assert(texts(paths@).take(0) =~= Seq::empty());
    while i < paths.len()
        invariant
            i <= paths@.len(),
            left_depths.wf(),
            right_depths.wf(),
            forall|p: Seq<char>| #[trigger] depth_in(left_depths, p) == max_depth(left@, p),
            forall|p: Seq<char>| #[trigger] depth_in(right_depths, p) == max_depth(right@, p),
            r == total_weight(texts(paths@).take(i as int), left@, right@),
        decreases paths@.len() - i,
    {
        let l: usize = depth_of(left_depths, paths[i].as_str());
        let d: usize = depth_of(right_depths, paths[i].as_str());
        let deepest: usize = if l < d { d } else { l };
        proof {
            let next = texts(paths@).take(i as int + 1);
            assert(next.drop_last() =~= texts(paths@).take(i as int));
            assert(next.last() == paths@[i as int]@);
            lemma_weight_bound(next, left@, right@);
            assert(next.len() * 0x1_0000_0000_0000_0000 <= 0xffff_ffff_ffff_ffff
                * 0x1_0000_0000_0000_0000) by (nonlinear_arith)
                requires
                    next.len() <= 0xffff_ffff_ffff_ffff,
            ;
        }
        r = r + (deepest as u128 + 1);
        i = i + 1;
    }
    assert(texts(paths@).take(i as int) =~= texts(paths@));
    r
}

// ---------------------------------------------------------------------------
// Families
// ---------------------------------------------------------------------------

/// Whether a member of this path is of this family.
pub open spec fn has_family(rows: Seq<ArchiveMemberRow>, path: Seq<char>, family: Seq<char>) -> bool {
    exists|i: int|
        0 <= i < rows.len() && (#[trigger] rows[i]).path@ == path && rows[i].payload_family@
            == family
}

/// Whether the members of a path are of other families on one side than on
/// the other.
pub open spec fn families_differ(
    left: Seq<ArchiveMemberRow>,
    right: Seq<ArchiveMemberRow>,
    path: Seq<char>,
) -> bool {
    exists|family: Seq<char>|
        #[trigger] has_family(left, path, family) != has_family(right, path, family)
}

/// Whether a path has a member of a family on both sides.
pub open spec fn shared_on_path(
    left: Seq<ArchiveMemberRow>,
    right: Seq<ArchiveMemberRow>,
    family: Seq<char>,
) -> bool {
    exists|path: Seq<char>|
        #[trigger] has_family(left, path, family) && has_family(right, path, family)
}

fn family_map(rows: &Vec<ArchiveMemberRow>) -> (r: PairSet)
    ensures
        r.wf(),
        forall|p: Seq<char>, f: Seq<char>| #[trigger] r.has(p, f) <==> has_family(rows@, p, f),
{
    let mut r = PairSet::new();
    let mut i: usize = 0;
    while i < rows.len()
        invariant
            i <= rows@.len(),
            r.wf(),
            r.full(),
            forall|p: Seq<char>, f: Seq<char>|
                #[trigger] r.has(p, f) <==> has_family(rows@.take(i as int), p, f),
        decreases rows@.len() - i,
    {
        let ghost before = r;
        let row = &rows[i];
        r.insert(row.path.clone(), row.payload_family.clone());
        proof {
            let old_rows = rows@.take(i as int);
            let new_rows = rows@.take(i as int + 1);
            assert forall|p: Seq<char>, f: Seq<char>| #[trigger] r.has(p, f) <==> has_family(
                new_rows,
                p,
                f,
            ) by {
                assert(before.has(p, f) <==> has_family(old_rows, p, f));
                if has_family(old_rows, p, f) {
                    let k = choose|k: int|
                        0 <= k < old_rows.len() && (#[trigger] old_rows[k]).path@ == p
                            && old_rows[k].payload_family@ == f;
                    assert(new_rows[k] == old_rows[k]);
                }
                assert(new_rows[i as int] == *row);
                if has_family(new_rows, p, f) {
                    let k = choose|k: int|
                        0 <= k < new_rows.len() && (#[trigger] new_rows[k]).path@ == p
                            && new_rows[k].payload_family@ == f;
                    if k < i {
                        assert(old_rows[k] == new_rows[k]);
                    }
                }
            }
        }
        i = i + 1;
    }
    assert(rows@.take(i as int) =~= rows@);
    r
}

/// Whether the sets hold the same texts.
fn same_sets(a: &TextSet, b: &TextSet) -> (r: bool)
    requires
        a.wf(),
        b.wf(),
    ensures
        r == (a@ == b@),
{
    proof {
        if a@ == b@ {
            assert forall|k: Seq<char>| a.seq().contains(k) <==> b.seq().contains(k) by {
                assert(a@.contains(k) <==> a.seq().contains(k));
                assert(b@.contains(k) <==> b.seq().contains(k));
            }
            lemma_ascending_unique(a.seq(), b.seq());
        }
        if a.seq() == b.seq() {
            assert forall|k: Seq<char>| a@.contains(k) <==> b@.contains(k) by {
                assert(a@.contains(k) <==> a.seq().contains(k));
                assert(b@.contains(k) <==> b.seq().contains(k));
            }
            assert(a@ =~= b@);
        }
    }
    if a.len() != b.len() {
        return false;
    }
    let mut i: usize = 0;
    while i < a.len()
        invariant
            a.wf(),
            b.wf(),
            a.seq().len() == b.seq().len(),
            i <= a.seq().len(),
            forall|k: int| 0 <= k < i ==> a.seq()[k] == b.seq()[k],
            a@ == b@ ==> a.seq() == b.seq(),
        decreases a.seq().len() - i,
    {
        if !same(a.at(i).as_str(), b.at(i).as_str()) {
            return false;
        }
        i = i + 1;
    }
    assert(a.seq() =~= b.seq());
    true
}

/// The paths of both archives whose members differ in family, in order.
pub open spec fn path_conflicts(
    left: Seq<ArchiveMemberRow>,
    right: Seq<ArchiveMemberRow>,
) -> Seq<Seq<char>> {
    exact_paths(left, right).filter(|p: Seq<char>| families_differ(left, right, p))
}

/// The families of both archives that no path has on both sides, in order.
pub open spec fn family_only(
    left: Seq<ArchiveMemberRow>,
    right: Seq<ArchiveMemberRow>,
) -> Seq<Seq<char>> {
    sorted_set(member_families(left)).filter(
        |f: Seq<char>| member_families(right).contains(f) && !shared_on_path(left, right, f),
    )
}

/// The families that the members of a path are of on both sides are the same.
fn same_families(
    left: &PairSet,
    right: &PairSet,
    path: &str,
    Ghost(l): Ghost<Seq<ArchiveMemberRow>>,
    Ghost(r): Ghost<Seq<ArchiveMemberRow>>,
) -> (b: bool)
    requires
        left.wf(),
        right.wf(),
        left.map@.contains_key(path@),
        right.map@.contains_key(path@),
        forall|p: Seq<char>, f: Seq<char>| #[trigger] left.has(p, f) <==> has_family(l, p, f),
        forall|p: Seq<char>, f: Seq<char>| #[trigger] right.has(p, f) <==> has_family(r, p, f),
    ensures
        b == !families_differ(l, r, path@),
{
    match (left.map.get(path), right.map.get(path)) {
        (Some(a), Some(b)) => {
            proof {
                assert forall|f: Seq<char>| has_family(l, path@, f) <==> a@.contains(f) by {
                    assert(left.has(path@, f) <==> has_family(l, path@, f));
                }
                assert forall|f: Seq<char>| has_family(r, path@, f) <==> b@.contains(f) by {
                    assert(right.has(path@, f) <==> has_family(r, path@, f));
                }
                if !families_differ(l, r, path@) {
                    assert forall|f: Seq<char>| a@.contains(f) <==> b@.contains(f) by {
                        assert(has_family(l, path@, f) == has_family(r, path@, f));
                    }
                    assert(a@ =~= b@);
                }
                if a@ == b@ {
                    assert forall|f: Seq<char>| #[trigger]
                        has_family(l, path@, f) == has_family(r, path@, f) by {
                        assert(a@.contains(f) == b@.contains(f));
                    }
                }
            }
            same_sets(a, b)
        },
        _ => false,
    }
}

proof fn lemma_path_has_family(pairs: &PairSet, rows: Seq<ArchiveMemberRow>, path: Seq<char>)
    requires
        member_paths(rows).contains(path),
        forall|p: Seq<char>, f: Seq<char>| #[trigger] pairs.has(p, f) <==> has_family(rows, p, f),
    ensures
        pairs.map@.contains_key(path),
{
    let i = member_paths(rows).index_of(path);
    assert(rows[i].path@ == path);
    assert(has_family(rows, path, rows[i].payload_family@));
    assert(pairs.has(path, rows[i].payload_family@));
}

fn collect_path_payload_conflicts(
    left: &PairSet,
    right: &PairSet,
    exact: &Vec<String>,
    left_rows: &Vec<ArchiveMemberRow>,
    right_rows: &Vec<ArchiveMemberRow>,
) -> (r: Vec<String>)
    requires
        left.wf(),
        right.wf(),
        texts(exact@) == exact_paths(left_rows@, right_rows@),
        forall|p: Seq<char>, f: Seq<char>|
            #[trigger] left.has(p, f) <==> has_family(left_rows@, p, f),
        forall|p: Seq<char>, f: Seq<char>|
            #[trigger] right.has(p, f) <==> has_family(right_rows@, p, f),
    ensures
        texts(r@) == path_conflicts(left_rows@, right_rows@),
{
    let ghost l = left_rows@;
    let ghost d = right_rows@;
    let ghost keep = |p: Seq<char>| families_differ(l, d, p);
    let ghost all = texts(exact@);
    let mut r: Vec<String> = Vec::new();
    let mut i: usize = 0;
    proof {
        lemma_filter_start(all, keep);
        assert(texts(r@) =~= Seq::empty());
    }
    while i < exact.len()
        invariant
            i <= exact@.len(),
            left.wf(),
            right.wf(),
            all == texts(exact@),
            all == exact_paths(l, d),
            l == left_rows@,
            d == right_rows@,
            forall|p: Seq<char>, f: Seq<char>| #[trigger] left.has(p, f) <==> has_family(l, p, f),
            forall|p: Seq<char>, f: Seq<char>| #[trigger] right.has(p, f) <==> has_family(d, p, f),
            keep == (|p: Seq<char>| families_differ(l, d, p)),
            texts(r@) == all.take(i as int).filter(keep),
        decreases exact@.len() - i,
    {
        proof {
            lemma_filter_step(all, keep, i as int);
            assert(all.contains(all[i as int]));
            lemma_exact_contains(l, d);
            lemma_path_has_family(left, l, all[i as int]);
            lemma_path_has_family(right, d, all[i as int]);
        }
        if !same_families(left, right, exact[i].as_str(), Ghost(l), Ghost(d)) {
            let ghost before = texts(r@);
            r.push(exact[i].clone());
            assert(texts(r@) =~= before.push(all[i as int]));
        }
        i = i + 1;
    }
    assert(all.take(i as int) =~= all);
    r
}

/// What is in the paths of both archives.
proof fn lemma_exact_contains(left: Seq<ArchiveMemberRow>, right: Seq<ArchiveMemberRow>)
    ensures
        ascending(exact_paths(left, right)),
        forall|p: Seq<char>|
            #[trigger] exact_paths(left, right).contains(p) <==> member_paths(left).contains(p)
                && member_paths(right).contains(p),
{
    let keep = |p: Seq<char>| member_paths(right).contains(p);
    let all = sorted_set(member_paths(left));
    lemma_sorted_set(member_paths(left));
    assert forall|p: Seq<char>| #[trigger] exact_paths(left, right).contains(p) <==> member_paths(
        left,
    ).contains(p) && member_paths(right).contains(p) by {
        if exact_paths(left, right).contains(p) {
            let i = all.filter(keep).index_of(p);
            all.lemma_filter_pred(keep, i);
            all.lemma_filter_contains_rev(keep, p);
        }
        if member_paths(left).contains(p) && member_paths(right).contains(p) {
            assert(all.contains(p));
            let i = all.index_of(p);
            all.lemma_filter_contains(keep, i);
        }
    }
    lemma_filter_ascending(all, keep);
}

fn is_shared_on_path(
    left: &PairSet,
    right: &PairSet,
    exact: &Vec<String>,
    family: &str,
    Ghost(l): Ghost<Seq<ArchiveMemberRow>>,
    Ghost(d): Ghost<Seq<ArchiveMemberRow>>,
) -> (b: bool)
    requires
        left.wf(),
        right.wf(),
        texts(exact@) == exact_paths(l, d),
        forall|p: Seq<char>, f: Seq<char>| #[trigger] left.has(p, f) <==> has_family(l, p, f),
        forall|p: Seq<char>, f: Seq<char>| #[trigger] right.has(p, f) <==> has_family(d, p, f),
    ensures
        b == shared_on_path(l, d, family@),
{
    let ghost all = texts(exact@);
    let mut i: usize = 0;
    while i < exact.len()
        invariant
            i <= exact@.len(),
            left.wf(),
            right.wf(),
            all == texts(exact@),
            forall|p: Seq<char>, f: Seq<char>| #[trigger] left.has(p, f) <==> has_family(l, p, f),
            forall|p: Seq<char>, f: Seq<char>| #[trigger] right.has(p, f) <==> has_family(d, p, f),
            forall|k: int|
                0 <= k < i ==> !(has_family(l, #[trigger] all[k], family@) && has_family(
                    d,
                    all[k],
                    family@,
                )),
        decreases exact@.len() - i,
    {
        let path = exact[i].as_str();
        assert(path@ == all[i as int]);
        if left.holds(path, family) && right.holds(path, family) {
            assert(has_family(l, path@, family@));
            return true;
        }
        i = i + 1;
    }
    proof {
        if shared_on_path(l, d, family@) {
            let p = choose|p: Seq<char>|
                #[trigger] has_family(l, p, family@) && has_family(d, p, family@);
            lemma_family_path(l, p, family@);
            lemma_family_path(d, p, family@);
            lemma_exact_contains(l, d);
            assert(all.contains(p));
            let k = all.index_of(p);
            assert(all[k] == p);
        }
    }
    false
}

proof fn lemma_family_path(rows: Seq<ArchiveMemberRow>, path: Seq<char>, family: Seq<char>)
    requires
        has_family(rows, path, family),
    ensures
        member_paths(rows).contains(path),
        member_families(rows).contains(family),
{
    let i = choose|i: int|
        0 <= i < rows.len() && (#[trigger] rows[i]).path@ == path && rows[i].payload_family@
            == family;
    assert(member_paths(rows)[i] == path);
    assert(member_families(rows)[i] == family);
}

fn collect_payload_family_only_overlap(
    left: &PairSet,
    right: &PairSet,
    exact: &Vec<String>,
    left_rows: &Vec<ArchiveMemberRow>,
    right_rows: &Vec<ArchiveMemberRow>,
) -> (r: Vec<String>)
    requires
        left.wf(),
        right.wf(),
        texts(exact@) == exact_paths(left_rows@, right_rows@),
        forall|p: Seq<char>, f: Seq<char>|
            #[trigger] left.has(p, f) <==> has_family(left_rows@, p, f),
        forall|p: Seq<char>, f: Seq<char>|
            #[trigger] right.has(p, f) <==> has_family(right_rows@, p, f),
    ensures
        texts(r@) == family_only(left_rows@, right_rows@),
{
    let ghost l = left_rows@;
    let ghost d = right_rows@;
    let ghost keep = |f: Seq<char>|
        member_families(d).contains(f) && !shared_on_path(l, d, f);
    let left_families = collect_families(left_rows);
    let right_families = collect_families(right_rows);
    let ghost all = left_families.seq();
    let mut r: Vec<String> = Vec::new();
    let mut i: usize = 0;
    proof {
        lemma_filter_start(all, keep);
        assert(texts(r@) =~= Seq::empty());
    }
    while i < left_families.len()
        invariant
            i <= all.len(),
            left.wf(),
            right.wf(),
            left_families.wf(),
            right_families.wf(),
            all == left_families.seq(),
            forall|f: Seq<char>|
                #[trigger] right_families@.contains(f) <==> member_families(d).contains(f),
            texts(exact@) == exact_paths(l, d),
            forall|p: Seq<char>, f: Seq<char>| #[trigger] left.has(p, f) <==> has_family(l, p, f),
            forall|p: Seq<char>, f: Seq<char>| #[trigger] right.has(p, f) <==> has_family(d, p, f),
            keep == (|f: Seq<char>|
                member_families(d).contains(f) && !shared_on_path(l, d, f)),
            texts(r@) == all.take(i as int).filter(keep),
        decreases all.len() - i,
    {
        proof {
            lemma_filter_step(all, keep, i as int);
        }
        let family = left_families.at(i);
        if right_families.contains(family.as_str()) && !is_shared_on_path(
            left,
            right,
            exact,
            family.as_str(),
            Ghost(l),
            Ghost(d),
        ) {
            let ghost before = texts(r@);
            r.push(family.clone());
            assert(texts(r@) =~= before.push(all[i as int]));
        }
        i = i + 1;
    }
    assert(all.take(i as int) =~= all);
    r
}

// ---------------------------------------------------------------------------
// The report
// ---------------------------------------------------------------------------

/// A part of a whole, nothing of an empty whole.
pub open spec fn part_of(part: int, whole: int) -> Ratio {
    if whole == 0 {
        (Ratio { num: 0, den: 1 })
    } else {
        (Ratio { num: part as u128, den: whole as u128 })
    }
}

fn ratio(part: u128, whole: u128) -> (r: Ratio)
    ensures
        r == part_of(part as int, whole as int),
        r.wf(),
{
    if whole == 0 {
        Ratio { num: 0, den: 1 }
    } else {
        Ratio { num: part, den: whole }
    }
}

/// The pairs that count toward the nested score: as many as there are distinct
/// paths on the side that has fewer of them.
pub open spec fn nested_units(nested: Seq<PathPair>) -> int {
    let l = sorted_set(left_texts(nested)).len();
    let r = sorted_set(right_texts(nested)).len();
    if l < r {
        l as int
    } else {
        r as int
    }
}

/// Whether a report tells how the members of two archives compare.
pub open spec fn compares(
    report: &ArchiveCompareReport,
    left: Seq<ArchiveMemberRow>,
    right: Seq<ArchiveMemberRow>,
) -> bool {
    let exact = exact_paths(left, right);
    let union = union_paths(left, right);
    let nested = report.buckets.nested_path_overlap@;
    &&& report.left_count == left.len()
    &&& report.right_count == right.len()
    &&& texts(report.buckets.exact_path_overlap@) == exact
    &&& pairs_ascending(pair_texts(nested))
    &&& forall|l: Seq<char>, r: Seq<char>|
        #[trigger] pair_texts(nested).contains((l, r)) <==> is_nested(
            l,
            r,
            member_paths(left),
            member_paths(right),
        )
    &&& texts(report.buckets.path_payload_conflict@) == path_conflicts(left, right)
    &&& texts(report.buckets.payload_family_only_overlap@) == family_only(left, right)
    &&& report.scores.exact_overlap_score == part_of(exact.len() as int, union.len() as int)
    &&& report.scores.nested_overlap_score == part_of(
        exact.len() + nested_units(nested),
        union.len() as int,
    )
    &&& report.scores.depth_weighted_overlap_score == part_of(
        total_weight(exact, left, right),
        total_weight(union, left, right),
    )
}

/// Compares the members of two archives.
pub fn compare_archive_rows(
    left_rows: Vec<ArchiveMemberRow>,
    right_rows: Vec<ArchiveMemberRow>,
) -> (report: ArchiveCompareReport)
    ensures
        compares(&report, left_rows@, right_rows@),
{
    let ghost l = left_rows@;
    let ghost d = right_rows@;
    let left_paths = collect_paths(&left_rows);
    let right_paths = collect_paths(&right_rows);
    let exact = intersect(&left_paths, &right_paths);
    proof {
        assert((|p: Seq<char>| right_paths@.contains(p)) =~= (|p: Seq<char>|
            member_paths(d).contains(p)));
    }
    let mut union = collect_paths(&left_rows);
    add_paths(&mut union, &right_rows);
    proof {
        assert forall|p: Seq<char>| union.seq().contains(p) <==> (member_paths(l)
            + member_paths(d)).contains(p) by {
            assert(union@.contains(p) <==> union.seq().contains(p));
            lemma_contains_sum(member_paths(l), member_paths(d), p);
        }
        lemma_sorted_set_unique(union.seq(), member_paths(l) + member_paths(d));
    }
    let union = union.into_vec();

    let mut pairs = PairSet::new();
    add_nested(&mut pairs, &left_paths, &right_paths, false);
    add_nested(&mut pairs, &right_paths, &left_paths, true);
    let nested = list_pairs(&pairs);
    proof {
        lemma_sides(&pairs, nested@);
        lemma_sorted_set(member_paths(l));
        lemma_sorted_set(member_paths(d));
        assert forall|a: Seq<char>, b: Seq<char>| #[trigger] pair_texts(nested@).contains((a, b))
            <==> is_nested(a, b, member_paths(l), member_paths(d)) by {
            assert(pairs.has(a, b) <==> is_nested(a, b, left_paths.seq(), right_paths.seq()));
        }
    }
    let lefts: usize = pairs.map.len();
    let rights: usize = pairs.rights.len();
    let units: usize = if lefts < rights { lefts } else { rights };

    let left_depths = depth_map(&left_rows);
    let right_depths = depth_map(&right_rows);
    let exact_weight = weigh(&exact, &left_depths, &right_depths, &left_rows, &right_rows);
    let union_weight = weigh(&union, &left_depths, &right_depths, &left_rows, &right_rows);

    let left_families = family_map(&left_rows);
    let right_families = family_map(&right_rows);
    let conflicts = collect_path_payload_conflicts(
        &left_families,
        &right_families,
        &exact,
        &left_rows,
        &right_rows,
    );
    let family_only = collect_payload_family_only_overlap(
        &left_families,
        &right_families,
        &exact,
        &left_rows,
        &right_rows,
    );
    let scores = OverlapScores {
        exact_overlap_score: ratio(exact.len() as u128, union.len() as u128),
        nested_overlap_score: ratio(exact.len() as u128 + units as u128, union.len() as u128),
        depth_weighted_overlap_score: ratio(exact_weight, union_weight),
    };
    ArchiveCompareReport {
        left_count: left_rows.len(),
        right_count: right_rows.len(),
        scores,
        buckets: ConflictBuckets {
            exact_path_overlap: exact,
            nested_path_overlap: nested,
            path_payload_conflict: conflicts,
            payload_family_only_overlap: family_only,
        },
    }
}

proof fn lemma_contains_sum(a: Seq<Seq<char>>, b: Seq<Seq<char>>, p: Seq<char>)
    ensures
        (a + b).contains(p) <==> a.contains(p) || b.contains(p),
{
    if a.contains(p) {
        assert((a + b)[a.index_of(p)] == p);
    }
    if b.contains(p) {
        assert((a + b)[a.len() + b.index_of(p)] == p);
    }
    if (a + b).contains(p) {
        let i = (a + b).index_of(p);
        if i < a.len() {
            assert(a[i] == p);
        } else {
            assert(b[i - a.len()] == p);
        }
    }
}

// ---------------------------------------------------------------------------
// Laws
// ---------------------------------------------------------------------------

/// What the two archives share is no more than what they hold together, in
/// number and in weight, so the exact and the weighted score are at most one.
pub proof fn law_shared_within_union(left: Seq<ArchiveMemberRow>, right: Seq<ArchiveMemberRow>)
    ensures
        exact_paths(left, right).len() <= union_paths(left, right).len(),
        total_weight(exact_paths(left, right), left, right) <= total_weight(
            union_paths(left, right),
            left,
            right,
        ),
{
    let union = union_paths(left, right);
    let keep = |p: Seq<char>| exact_paths(left, right).contains(p);
    lemma_sorted_set(member_paths(left) + member_paths(right));
    lemma_exact_contains(left, right);
    lemma_filter_ascending(union, keep);
    assert forall|p: Seq<char>| union.filter(keep).contains(p) <==> exact_paths(
        left,
        right,
    ).contains(p) by {
        lemma_contains_sum(member_paths(left), member_paths(right), p);
        if exact_paths(left, right).contains(p) {
            assert(union.contains(p));
            union.lemma_filter_contains(keep, union.index_of(p));
        }
        if union.filter(keep).contains(p) {
            union.lemma_filter_pred(keep, union.filter(keep).index_of(p));
        }
    }
    lemma_ascending_unique(union.filter(keep), exact_paths(left, right));
    lemma_filter_weight(union, keep, left, right);
}

proof fn lemma_filter_weight(
    paths: Seq<Seq<char>>,
    keep: spec_fn(Seq<char>) -> bool,
    left: Seq<ArchiveMemberRow>,
    right: Seq<ArchiveMemberRow>,
)
    ensures
        paths.filter(keep).len() <= paths.len(),
        total_weight(paths.filter(keep), left, right) <= total_weight(paths, left, right),
    decreases paths.len(),
{
    reveal(Seq::filter);
    if paths.len() > 0 {
        let init = paths.drop_last();
        lemma_filter_weight(init, keep, left, right);
        lemma_depth_bound(left, paths.last());
        lemma_depth_bound(right, paths.last());
        if keep(paths.last()) {
            assert(paths.filter(keep).drop_last() =~= init.filter(keep));
        }
    }
}

/// An archive compared with itself shares every path, has no nested pairs, no
/// conflicts, and no family that only the families share.
pub proof fn law_compare_with_itself(rows: Seq<ArchiveMemberRow>)
    ensures
        exact_paths(rows, rows) == union_paths(rows, rows),
        forall|l: Seq<char>, r: Seq<char>|
            !#[trigger] is_nested(l, r, member_paths(rows), member_paths(rows)),
        path_conflicts(rows, rows) == Seq::<Seq<char>>::empty(),
        family_only(rows, rows) == Seq::<Seq<char>>::empty(),
{
    let paths = member_paths(rows);
    lemma_exact_contains(rows, rows);
    lemma_sorted_set(paths + paths);
    assert forall|p: Seq<char>| exact_paths(rows, rows).contains(p) <==> union_paths(
        rows,
        rows,
    ).contains(p) by {
        lemma_contains_sum(paths, paths, p);
    }
    lemma_ascending_unique(exact_paths(rows, rows), union_paths(rows, rows));
    let conflicts = path_conflicts(rows, rows);
    if conflicts.len() > 0 {
        let keep = |p: Seq<char>| families_differ(rows, rows, p);
        exact_paths(rows, rows).lemma_filter_pred(keep, 0);
    }
    assert(conflicts =~= Seq::empty());
    let only = family_only(rows, rows);
    if only.len() > 0 {
        let keep = |f: Seq<char>|
            member_families(rows).contains(f) && !shared_on_path(rows, rows, f);
        sorted_set(member_families(rows)).lemma_filter_pred(keep, 0);
        let f = only[0];
        let i = member_families(rows).index_of(f);
        assert(rows[i].payload_family@ == f);
        assert(has_family(rows, rows[i].path@, f));
    }
    assert(only =~= Seq::empty());
}

/// Changing sides changes neither what is shared nor what is in conflict, and
/// turns the nested pairs round.
pub proof fn law_compare_symmetric(left: Seq<ArchiveMemberRow>, right: Seq<ArchiveMemberRow>)
    ensures
        exact_paths(left, right) == exact_paths(right, left),
        union_paths(left, right) == union_paths(right, left),
        forall|l: Seq<char>, r: Seq<char>| #[trigger]
            is_nested(l, r, member_paths(left), member_paths(right)) == is_nested(
                r,
                l,
                member_paths(right),
                member_paths(left),
            ),
        path_conflicts(left, right) == path_conflicts(right, left),
        family_only(left, right) == family_only(right, left),
{
    lemma_exact_contains(left, right);
    lemma_exact_contains(right, left);
    lemma_ascending_unique(exact_paths(left, right), exact_paths(right, left));
    let a = member_paths(left);
    let b = member_paths(right);
    lemma_sorted_set(a + b);
    lemma_sorted_set(b + a);
    assert forall|p: Seq<char>| union_paths(left, right).contains(p) <==> union_paths(
        right,
        left,
    ).contains(p) by {
        lemma_contains_sum(a, b, p);
        lemma_contains_sum(b, a, p);
    }
    lemma_ascending_unique(union_paths(left, right), union_paths(right, left));
    let there = |p: Seq<char>| families_differ(left, right, p);
    let back = |p: Seq<char>| families_differ(right, left, p);
    assert forall|p: Seq<char>| #[trigger] there(p) == back(p) by {
        if there(p) {
            let f = choose|f: Seq<char>|
                #[trigger] has_family(left, p, f) != has_family(right, p, f);
            assert(has_family(right, p, f) != has_family(left, p, f));
        }
        if back(p) {
            let f = choose|f: Seq<char>|
                #[trigger] has_family(right, p, f) != has_family(left, p, f);
            assert(has_family(left, p, f) != has_family(right, p, f));
        }
    }
    assert(there =~= back);
    lemma_family_only(left, right);
    lemma_family_only(right, left);
    assert forall|f: Seq<char>| shared_on_path(left, right, f) == shared_on_path(right, left, f) by {
        if shared_on_path(left, right, f) {
            let p = choose|p: Seq<char>|
                #[trigger] has_family(left, p, f) && has_family(right, p, f);
            assert(has_family(right, p, f));
        }
        if shared_on_path(right, left, f) {
            let p = choose|p: Seq<char>|
                #[trigger] has_family(right, p, f) && has_family(left, p, f);
            assert(has_family(left, p, f));
        }
    }
    lemma_ascending_unique(family_only(left, right), family_only(right, left));
}

proof fn lemma_family_only(left: Seq<ArchiveMemberRow>, right: Seq<ArchiveMemberRow>)
    ensures
        ascending(family_only(left, right)),
        forall|f: Seq<char>|
            #[trigger] family_only(left, right).contains(f) <==> member_families(left).contains(f)
                && member_families(right).contains(f) && !shared_on_path(left, right, f),
{
    let keep = |f: Seq<char>|
        member_families(right).contains(f) && !shared_on_path(left, right, f);
    let all = sorted_set(member_families(left));
    lemma_sorted_set(member_families(left));
    lemma_filter_ascending(all, keep);
    assert forall|f: Seq<char>| #[trigger] family_only(left, right).contains(f)
        <==> member_families(left).contains(f) && keep(f) by {
        if family_only(left, right).contains(f) {
            all.lemma_filter_pred(keep, all.filter(keep).index_of(f));
        }
        if member_families(left).contains(f) && keep(f) {
            assert(all.contains(f));
            all.lemma_filter_contains(keep, all.index_of(f));
        }
    }
}

proof fn lemma_weights_symmetric(
    paths: Seq<Seq<char>>,
    left: Seq<ArchiveMemberRow>,
    right: Seq<ArchiveMemberRow>,
)
    ensures
        total_weight(paths, left, right) == total_weight(paths, right, left),
    decreases paths.len(),
{
    if paths.len() > 0 {
        lemma_weights_symmetric(paths.drop_last(), left, right);
    }
}

/// The left texts of pairs are the right texts of the pairs turned round.
proof fn lemma_turned_sides(there: Seq<PathPair>, back: Seq<PathPair>)
    requires
        forall|l: Seq<char>, r: Seq<char>|
            #[trigger] pair_texts(there).contains((l, r)) ==> pair_texts(back).contains((r, l)),
        forall|l: Seq<char>, r: Seq<char>|
            #[trigger] pair_texts(back).contains((l, r)) ==> pair_texts(there).contains((r, l)),
    ensures
        sorted_set(left_texts(there)) == sorted_set(right_texts(back)),
{
    let a = left_texts(there);
    let b = right_texts(back);
    assert forall|t: Seq<char>| a.contains(t) <==> b.contains(t) by {
        if a.contains(t) {
            let i = a.index_of(t);
            let pair = (there[i].lhs_path@, there[i].rhs_path@);
            assert(pair_texts(there)[i] == pair);
            assert(pair_texts(there).contains((pair.0, pair.1)));
            let j = pair_texts(back).index_of((pair.1, pair.0));
            assert(pair_texts(back)[j] == (pair.1, pair.0));
            assert(b[j] == t);
        }
        if b.contains(t) {
            let i = b.index_of(t);
            let pair = (back[i].lhs_path@, back[i].rhs_path@);
            assert(pair_texts(back)[i] == pair);
            assert(pair_texts(back).contains((pair.0, pair.1)));
            let j = pair_texts(there).index_of((pair.1, pair.0));
            assert(pair_texts(there)[j] == (pair.1, pair.0));
            assert(a[j] == t);
        }
    }
    lemma_sorted_set(a);
    lemma_sorted_set_unique(sorted_set(a), b);
}

/// Changing sides changes none of the three scores.
pub proof fn law_scores_symmetric(
    there: &ArchiveCompareReport,
    back: &ArchiveCompareReport,
    left: Seq<ArchiveMemberRow>,
    right: Seq<ArchiveMemberRow>,
)
    requires
        compares(there, left, right),
        compares(back, right, left),
    ensures
        there.scores.exact_overlap_score == back.scores.exact_overlap_score,
        there.scores.nested_overlap_score == back.scores.nested_overlap_score,
        there.scores.depth_weighted_overlap_score == back.scores.depth_weighted_overlap_score,
{
    let a = there.buckets.nested_path_overlap@;
    let b = back.buckets.nested_path_overlap@;
    let lp = member_paths(left);
    let rp = member_paths(right);
    law_compare_symmetric(left, right);
    lemma_weights_symmetric(exact_paths(left, right), left, right);
    lemma_weights_symmetric(union_paths(left, right), left, right);
    assert forall|l: Seq<char>, r: Seq<char>| #[trigger] pair_texts(a).contains((l, r)) implies
        pair_texts(b).contains((r, l)) by {
        assert(is_nested(l, r, lp, rp) == is_nested(r, l, rp, lp));
    }
    assert forall|l: Seq<char>, r: Seq<char>| #[trigger] pair_texts(b).contains((l, r)) implies
        pair_texts(a).contains((r, l)) by {
        assert(is_nested(r, l, lp, rp) == is_nested(l, r, rp, lp));
    }
    lemma_turned_sides(a, b);
    lemma_turned_sides(b, a);
}

/// Paths that lie below one another add to the score of the paths of both
/// archives.
pub proof fn law_nested_no_less_than_exact(
    report: &ArchiveCompareReport,
    left: Seq<ArchiveMemberRow>,
    right: Seq<ArchiveMemberRow>,
)
    requires
        compares(report, left, right),
    ensures
        !report.scores.nested_overlap_score.lt(&report.scores.exact_overlap_score),
{
    let exact = exact_paths(left, right);
    let union = union_paths(left, right);
    let nested = report.buckets.nested_path_overlap@;
    let shown = report.buckets.exact_path_overlap@;
    assert(shown.len() == exact.len());
    assert(report.buckets.exact_path_overlap.len() == shown.len());
    assert(report.buckets.nested_path_overlap.len() == nested.len());
    lemma_sorted_set(left_texts(nested));
    lemma_sorted_set(right_texts(nested));
    lemma_sorted_set(member_paths(left) + member_paths(right));
    if union.len() > 0 {
        let n = report.scores.nested_overlap_score;
        let e = report.scores.exact_overlap_score;
        assert(e.num * n.den <= n.num * e.den) by (nonlinear_arith)
            requires
                e.den == n.den,
                e.num <= n.num,
        ;
    }
}

} // verus!
