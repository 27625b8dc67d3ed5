//! How much two binary files are alike, by samples and by their bytes.

use crate::fnv::{fnv, fnv1a64, hex64};
use crate::number::hex_sixteen;
use crate::ratio::{nearest, round, Ratio};
use crate::text::texts;
use std::collections::BTreeMap;
use vstd::arithmetic::div_mod::{lemma_mod_add_multiples_vanish, lemma_small_mod};
use vstd::multiset::Multiset;
use vstd::prelude::*;
use vstd::set_lib::{lemma_map_size, set_int_range};
use vstd::slice::slice_subrange;

verus! {

const DEFAULT_WINDOW_SIZE: usize = 4096;

const DEFAULT_MAX_WINDOWS: usize = 24;

/// The size of the windows in which files are sampled, and how many there are.
#[derive(Clone, Copy, Debug, PartialEq, Eq, Structural)]
pub struct BinaryDiffConfig {
    pub window_size: usize,
    pub max_windows: usize,
}

impl Default for BinaryDiffConfig {
    fn default() -> (r: Self)
        ensures
            r.window_size == 4096,
            r.max_windows == 24,
    {
        BinaryDiffConfig { window_size: DEFAULT_WINDOW_SIZE, max_windows: DEFAULT_MAX_WINDOWS }
    }
}

/// The hashes of a file, of its ends and of its windows.
#[derive(Clone, Debug, PartialEq, Eq)]
pub struct BinaryDigest {
    pub size: u64,
    pub full_hash: String,
    pub head_hash: String,
    pub tail_hash: String,
    pub sample_hashes: Vec<String>,
}

/// How much two files are alike.
#[derive(Debug)]
pub struct BinaryDiffResult {
    /// In parts of `SIMILARITY_WHOLE`.
    pub similarity: Ratio,
    pub aligned_similarity: Ratio,
    pub shifted_alignment_similarity: Ratio,
    pub content_similarity: Ratio,
    pub histogram_similarity: Ratio,
    pub windows_compared: usize,
    pub matching_aligned_windows: usize,
    pub left: BinaryDigest,
    pub right: BinaryDigest,
}

pub open spec fn least(a: int, b: int) -> int {
    if a < b {
        a
    } else {
        b
    }
}

pub open spec fn greatest(a: int, b: int) -> int {
    if a < b {
        b
    } else {
        a
    }
}

// ---------------------------------------------------------------------------
// Windows
// ---------------------------------------------------------------------------

/// The size of the windows of a file.
pub open spec fn window_of(len: int, requested: int) -> int {
    least(greatest(requested, 1), len)
}

fn effective_window_size(len: usize, requested: usize) -> (r: usize)
    ensures
        r == window_of(len as int, requested as int),
{
    let requested: usize = if requested < 1 { 1 } else { requested };
    if requested < len {
        requested
    } else {
        len
    }
}

/// `target` places from zero to `limit`, as evenly as whole numbers allow.
pub open spec fn spread(limit: int, target: int) -> Seq<int> {
    Seq::new(target as nat, |i: int| i * limit / (target - 1))
}

/// A sequence without the items that equal the one before them.
pub open spec fn dedup(s: Seq<int>) -> Seq<int>
    decreases s.len(),
{
    if s.len() == 0 {
        s
    } else if s.len() > 1 && s[s.len() - 2] == s.last() {
        dedup(s.drop_last())
    } else {
        dedup(s.drop_last()).push(s.last())
    }
}

/// Where the windows of a file of this length start.
pub open spec fn offsets_of(len: int, window: int, max_windows: int) -> Seq<int> {
    if len == 0 || window == 0 {
        Seq::empty()
    } else if len <= window {
        seq![0]
    } else {
        dedup(spread(len - window, greatest(max_windows, 2)))
    }
}

pub open spec fn ints(v: Seq<usize>) -> Seq<int> {
    v.map_values(|x: usize| x as int)
}

proof fn lemma_spread(limit: int, target: int, i: int)
    requires
        0 <= limit,
        2 <= target,
        0 <= i < target,
    ensures
        0 <= i * limit / (target - 1) <= limit,
{
    assert(0 <= i * limit <= limit * (target - 1)) by (nonlinear_arith)
        requires
            0 <= i <= target - 1,
            0 <= limit,
    ;
    assert(0 <= i * limit / (target - 1) <= limit) by (nonlinear_arith)
        requires
            0 <= i * limit <= limit * (target - 1),
            target - 1 > 0,
    ;
}

proof fn lemma_dedup_last(s: Seq<int>)
    requires
        s.len() > 0,
    ensures
        dedup(s).len() > 0,
        dedup(s).last() == s.last(),
    decreases s.len(),
{
    if s.len() > 1 && s[s.len() - 2] == s.last() {
        lemma_dedup_last(s.drop_last());
    }
}

fn sample_offsets(len: usize, window: usize, max_windows: usize) -> (r: Vec<usize>)
    ensures
        ints(r@) == offsets_of(len as int, window as int, max_windows as int),
        window <= len ==> forall|i: int| 0 <= i < r@.len() ==> (#[trigger] r@[i]) + window <= len,
{
    let mut r: Vec<usize> = Vec::new();
    if len == 0 || window == 0 {
        assert(ints(r@) =~= Seq::empty());
        return r;
    }
    if len <= window {
        r.push(0);
        assert(ints(r@) =~= seq![0]);
        return r;
    }
    let limit: usize = len - window;
    let target: usize = if max_windows < 2 { 2 } else { max_windows };
    let ghost all = spread(limit as int, target as int);
    let mut i: usize = 0;
    assert(ints(r@) =~= dedup(all.take(0)));
    while i < target
        invariant
            i <= target,
            2 <= target,
            limit == len - window,
            all == spread(limit as int, target as int),
            ints(r@) == dedup(all.take(i as int)),
            forall|k: int| 0 <= k < r@.len() ==> (#[trigger] r@[k]) <= limit,
        decreases target - i,
    {
        proof {
            lemma_spread(limit as int, target as int, i as int);
            assert(0 <= i * limit <= 0xffff_ffff_ffff_ffff * 0xffff_ffff_ffff_ffff) by (nonlinear_arith)
                requires
                    0 <= i <= 0xffff_ffff_ffff_ffff,
                    0 <= limit <= 0xffff_ffff_ffff_ffff,
            ;
        }
        let place: u128 = (i as u128) * (limit as u128) / (target as u128 - 1);
        let place: usize = place as usize;
        proof {
            assert(place == all[i as int]);
            assert(all.take(i as int + 1).drop_last() =~= all.take(i as int));
            if i > 0 {
                lemma_dedup_last(all.take(i as int));
                assert(ints(r@).last() == r@.last());
            }
        }
        let n: usize = r.len();
        if i == 0 || r[n - 1] != place {
            let ghost before = ints(r@);
            r.push(place);
            assert(ints(r@) =~= before.push(place as int));
        }
        i = i + 1;
    }
    assert(all.take(i as int) =~= all);
    r
}

/// The hashes of the windows of a file.
pub open spec fn window_hashes(bytes: Seq<u8>, config: BinaryDiffConfig) -> Seq<u64> {
    let window = window_of(bytes.len() as int, config.window_size as int);
    offsets_of(bytes.len() as int, window, greatest(config.max_windows as int, 1)).map_values(
        |o: int| fnv(bytes.subrange(o, o + window)),
    )
}

fn sample_hashes(bytes: &[u8], config: &BinaryDiffConfig) -> (r: Vec<u64>)
    ensures
        r@ == window_hashes(bytes@, *config),
{
    let total: usize = bytes.len();
    let window = effective_window_size(total, config.window_size);
    let max_windows: usize = if config.max_windows < 1 { 1 } else { config.max_windows };
    let offsets = sample_offsets(bytes.len(), window, max_windows);
    let mut r: Vec<u64> = Vec::new();
    let mut i: usize = 0;
    while i < offsets.len()
        invariant
            i <= offsets@.len(),
            total == bytes@.len(),
            r@.len() == i,
            forall|k: int| 0 <= k < offsets@.len() ==> (#[trigger] offsets@[k]) + window <= bytes@.len(),
            forall|k: int|
                0 <= k < i ==> (#[trigger] r@[k]) == fnv(
                    bytes@.subrange(offsets@[k] as int, offsets@[k] + window),
                ),
        decreases offsets@.len() - i,
    {
        let start: usize = offsets[i];
        let part = slice_subrange(bytes, start, start + window);
        r.push(fnv1a64(part));
        i = i + 1;
    }
    proof {
        let all = offsets_of(bytes@.len() as int, window as int, max_windows as int);
        assert(ints(offsets@) == all);
        assert forall|k: int| 0 <= k < r@.len() implies #[trigger] r@[k] == window_hashes(
            bytes@,
            *config,
        )[k] by {
            assert(all[k] == offsets@[k]);
        }
        assert(r@ =~= window_hashes(bytes@, *config));
    }
    r
}

// ---------------------------------------------------------------------------
// Agreement of windows
// ---------------------------------------------------------------------------

/// How many of the first `k` windows equal the right one `shift` places on,
/// counting round at `n`.
pub open spec fn matches_at(l: Seq<u64>, r: Seq<u64>, n: int, shift: int, k: int) -> int
    decreases k,
{
    if k <= 0 {
        0
    } else {
        matches_at(l, r, n, shift, k - 1) + (if l[k - 1] == r[(k - 1 + shift) % n] {
            1int
        } else {
            0
        })
    }
}

/// The most windows that agree at one of the first `shifts` shifts.
pub open spec fn best_match(l: Seq<u64>, r: Seq<u64>, n: int, shifts: int) -> int
    decreases shifts,
{
    if shifts <= 0 {
        0
    } else {
        greatest(best_match(l, r, n, shifts - 1), matches_at(l, r, n, shifts - 1, n))
    }
}

proof fn lemma_matches_bound(l: Seq<u64>, r: Seq<u64>, n: int, shift: int, k: int)
    requires
        0 <= k,
    ensures
        0 <= matches_at(l, r, n, shift, k) <= k,
    decreases k,
{
    if k > 0 {
        lemma_matches_bound(l, r, n, shift, k - 1);
    }
}

fn count_matches(l: &Vec<u64>, r: &Vec<u64>, n: usize, shift: usize) -> (c: usize)
    requires
        n <= l@.len(),
        n <= r@.len(),
        shift < n || (shift == 0 && n == 0),
    ensures
        c == matches_at(l@, r@, n as int, shift as int, n as int),
        c <= n,
{
    let mut c: usize = 0;
    let mut i: usize = 0;
    let mut j: usize = shift;
    while i < n
        invariant
            i <= n,
            n <= l@.len(),
            n <= r@.len(),
            shift < n || (shift == 0 && n == 0),
            j == if i + shift < n { i + shift } else { i + shift - n },
            c == matches_at(l@, r@, n as int, shift as int, i as int),
            c <= i,
        decreases n - i,
    {
        proof {
            if i + shift < n {
                lemma_small_mod((i + shift) as nat, n as nat);
            } else {
                lemma_mod_add_multiples_vanish(i + shift - n, n as int);
                lemma_small_mod((i + shift - n) as nat, n as nat);
            }
        }
        if l[i] == r[j] {
            c = c + 1;
        }
        i = i + 1;
        j = if j + 1 == n { 0 } else { j + 1 };
    }
    c
}

/// The share of windows that agree in their places.
pub open spec fn aligned_share(l: Seq<u64>, r: Seq<u64>) -> Ratio {
    let n = least(l.len() as int, r.len() as int);
    if n == 0 {
        full_where(l.len() == 0 && r.len() == 0)
    } else {
        (Ratio { num: matches_at(l, r, n, 0, n) as u128, den: n as u128 })
    }
}

/// The share of windows that agree at the best shift.
pub open spec fn shifted_share(l: Seq<u64>, r: Seq<u64>) -> Ratio {
    let n = least(l.len() as int, r.len() as int);
    if n == 0 {
        full_where(l.len() == 0 && r.len() == 0)
    } else {
        (Ratio { num: best_match(l, r, n, n) as u128, den: n as u128 })
    }
}

/// All or nothing.
pub open spec fn full_where(b: bool) -> Ratio {
    (Ratio { num: if b { 1 } else { 0 }, den: 1 })
}

fn all_or_nothing(b: bool) -> (r: Ratio)
    ensures
        r == full_where(b),
{
    Ratio { num: if b { 1 } else { 0 }, den: 1 }
}

fn best_cyclic_alignment_similarity(l: &Vec<u64>, r: &Vec<u64>) -> (s: Ratio)
    ensures
        s == shifted_share(l@, r@),
        is_share(s),
{
    let n: usize = if l.len() < r.len() { l.len() } else { r.len() };
    if n == 0 {
        return all_or_nothing(l.len() == 0 && r.len() == 0);
    }
    let mut best: usize = 0;
    let mut shift: usize = 0;
    while shift < n
        invariant
            shift <= n,
            n <= l@.len(),
            n <= r@.len(),
            best <= n,
            best == best_match(l@, r@, n as int, shift as int),
        decreases n - shift,
    {
        let c = count_matches(l, r, n, shift);
        if best < c {
            best = c;
        }
        shift = shift + 1;
    }
    Ratio { num: best as u128, den: n as u128 }
}

// ---------------------------------------------------------------------------
// Common contents
// ---------------------------------------------------------------------------

/// How many items two sequences have in common, each as often as in the one
/// that has it less often.
pub open spec fn common<A>(l: Seq<A>, r: Seq<A>) -> nat {
    l.to_multiset().intersection_with(r.to_multiset()).len()
}

/// The items in common among the items of either sequence, each as often as
/// in the one that has it more often.
pub open spec fn jaccard<A>(l: Seq<A>, r: Seq<A>) -> Ratio {
    if l.len() == 0 && r.len() == 0 {
        (Ratio { num: 1, den: 1 })
    } else {
        (Ratio { num: common(l, r) as u128, den: (l.len() + r.len() - common(l, r)) as u128 })
    }
}

proof fn lemma_common_push<A>(l: Seq<A>, x: A, r: Seq<A>)
    ensures
        common(l.push(x), r) == common(l, r) + (if l.to_multiset().count(x)
            < r.to_multiset().count(x) {
            1nat
        } else {
            0
        }),
{
    broadcast use vstd::seq_lib::group_to_multiset_ensures;
    broadcast use vstd::multiset::group_multiset_axioms;
    broadcast use vstd::multiset::group_multiset_properties;

    let a = l.to_multiset();
    let b = r.to_multiset();
    assert(l.push(x).to_multiset() =~= a.insert(x));
    if a.count(x) < b.count(x) {
        assert(a.insert(x).intersection_with(b) =~= a.intersection_with(b).insert(x));
    } else {
        assert(a.insert(x).intersection_with(b) =~= a.intersection_with(b));
    }
}

proof fn lemma_common_bound<A>(l: Seq<A>, r: Seq<A>)
    ensures
        common(l, r) <= l.len(),
        common(l, r) <= r.len(),
        common(l, r) == common(r, l),
{
    broadcast use vstd::seq_lib::group_to_multiset_ensures;
    broadcast use vstd::multiset::group_multiset_axioms;
    broadcast use vstd::multiset::group_multiset_properties;

    let a = l.to_multiset();
    let b = r.to_multiset();
    let c = a.intersection_with(b);
    assert(c.subset_of(a));
    assert(c.subset_of(b));
    assert(c =~= b.intersection_with(a));
    assert(a.sub(c).len() == a.len() - c.len());
    assert(b.sub(c).len() == b.len() - c.len());
}

/// What a further item does to the counts.
proof fn lemma_count_push<A>(s: Seq<A>, x: A)
    ensures
        s.push(x).to_multiset().count(x) == s.to_multiset().count(x) + 1,
        forall|y: A|
            y != x ==> #[trigger] s.push(x).to_multiset().count(y) == s.to_multiset().count(y),
        s.to_multiset().count(x) <= s.len(),
{
    broadcast use vstd::seq_lib::group_to_multiset_ensures;
    broadcast use vstd::multiset::group_multiset_axioms;
    broadcast use vstd::multiset::group_multiset_properties;

    assert(s.push(x).to_multiset() =~= s.to_multiset().insert(x));
    assert(s.to_multiset().len() == s.len());
}

/// Nothing is counted in an empty sequence.
proof fn lemma_count_empty<A>()
    ensures
        forall|y: A| #[trigger] Seq::<A>::empty().to_multiset().count(y) == 0,
{
    broadcast use vstd::seq_lib::group_to_multiset_ensures;
    broadcast use vstd::multiset::group_multiset_axioms;

    assert forall|y: A| #[trigger] Seq::<A>::empty().to_multiset().count(y) == 0 by {
        assert(!Seq::<A>::empty().contains(y));
    }
}

/// How often a number stands in a map of counts.
spec fn counted(map: BTreeMap<u64, usize>, k: u64) -> int {
    if map@.contains_key(k) {
        map@[k] as int
    } else {
        0
    }
}

/// How many hashes two lists have in common.
fn count_common(l: &Vec<u64>, r: &Vec<u64>) -> (c: usize)
    ensures
        c == common(l@, r@),
{
    let mut counts: BTreeMap<u64, usize> = BTreeMap::new();
    let mut i: usize = 0;
    proof {
        assert(r@.take(0) =~= Seq::empty());
        lemma_count_empty::<u64>();
    }
    while i < r.len()
        invariant
            i <= r@.len(),
            forall|k: u64|
                #[trigger] counted(counts, k) == r@.take(i as int).to_multiset().count(k),
        decreases r@.len() - i,
    {
        let ghost before = counts;
        let key: u64 = r[i];
        let n: usize = match counts.get(&key) {
            Some(n) => *n,
            None => 0,
        };
        proof {
            assert(r@.take(i as int + 1) =~= r@.take(i as int).push(key));
            assert(counted(before, key) == n);
            lemma_count_push(r@.take(i as int), key);
        }
        counts.insert(key, n + 1);
        proof {
            assert forall|k: u64|
                #[trigger] counted(counts, k) == r@.take(i as int + 1).to_multiset().count(k) by {
                assert(counted(before, k) == r@.take(i as int).to_multiset().count(k));
            }
        }
        i = i + 1;
    }
    assert(r@.take(i as int) =~= r@);
    let mut c: usize = 0;
    let mut j: usize = 0;
    proof {
        assert(l@.take(0) =~= Seq::empty());
        lemma_common_bound(l@.take(0), r@);
        lemma_count_empty::<u64>();
    }
    while j < l.len()
        invariant
            j <= l@.len(),
            c <= j,
            c == common(l@.take(j as int), r@),
            forall|k: u64|
                #[trigger] counted(counts, k) == greatest(
                    r@.to_multiset().count(k) - l@.take(j as int).to_multiset().count(k),
                    0,
                ),
        decreases l@.len() - j,
    {
        let ghost before = counts;
        let key: u64 = l[j];
        let n: usize = match counts.get(&key) {
            Some(n) => *n,
            None => 0,
        };
        proof {
            assert(l@.take(j as int + 1) =~= l@.take(j as int).push(key));
            lemma_common_push(l@.take(j as int), key, r@);
            lemma_count_push(l@.take(j as int), key);
            assert(counted(before, key) == n);
        }
        if n > 0 {
            c = c + 1;
            counts.insert(key, n - 1);
        }
        proof {
            assert forall|k: u64|
                #[trigger] counted(counts, k) == greatest(
                    r@.to_multiset().count(k) - l@.take(j as int + 1).to_multiset().count(k),
                    0,
                ) by {
                assert(counted(before, k) == greatest(
                    r@.to_multiset().count(k) - l@.take(j as int).to_multiset().count(k),
                    0,
                ));
            }
        }
        j = j + 1;
    }
    assert(l@.take(j as int) =~= l@);
    c
}

/// A fraction between nothing and all, of terms that fit in 65 bits.
spec fn is_share(r: Ratio) -> bool {
    r.num <= r.den && 0 < r.den <= 0x2_0000_0000_0000_0000
}

/// The common items among all.
fn common_share(in_common: usize, l: usize, r: usize) -> (s: Ratio)
    requires
        in_common <= l,
        in_common <= r,
    ensures
        is_share(s),
        s == if l == 0 && r == 0 {
            (Ratio { num: 1, den: 1 })
        } else {
            (Ratio { num: in_common as u128, den: (l + r - in_common) as u128 })
        },
{
    if l == 0 && r == 0 {
        Ratio { num: 1, den: 1 }
    } else {
        Ratio { num: in_common as u128, den: l as u128 + (r - in_common) as u128 }
    }
}

fn multiset_jaccard(l: &Vec<u64>, r: &Vec<u64>) -> (s: Ratio)
    ensures
        s == jaccard(l@, r@),
        is_share(s),
{
    proof {
        lemma_common_bound(l@, r@);
    }
    let c = count_common(l, r);
    common_share(c, l.len(), r.len())
}

/// How often each byte stands in a file.
fn byte_histogram(bytes: &[u8]) -> (h: Vec<usize>)
    ensures
        h@.len() == 256,
        forall|b: u8| #[trigger] h@[b as int] == bytes@.to_multiset().count(b),
{
    let mut h: Vec<usize> = Vec::new();
    while h.len() < 256
        invariant
            h@.len() <= 256,
            forall|k: int| 0 <= k < h@.len() ==> h@[k] == 0,
        decreases 256 - h@.len(),
    {
        h.push(0);
    }
    let mut i: usize = 0;
    proof {
        assert(bytes@.take(0) =~= Seq::empty());
        lemma_count_empty::<u8>();
    }
    while i < bytes.len()
        invariant
            i <= bytes@.len(),
            h@.len() == 256,
            forall|b: u8| #[trigger] h@[b as int] == bytes@.take(i as int).to_multiset().count(b),
        decreases bytes@.len() - i,
    {
        let b: u8 = bytes[i];
        let n: usize = h[b as usize];
        let ghost before = h@;
        proof {
            assert(bytes@.take(i as int + 1) =~= bytes@.take(i as int).push(b));
            assert(before[b as int] == bytes@.take(i as int).to_multiset().count(b));
            lemma_count_push(bytes@.take(i as int), b);
        }
        h.set(b as usize, n + 1);
        proof {
            assert forall|c: u8|
                #[trigger] h@[c as int] == bytes@.take(i as int + 1).to_multiset().count(c) by {
                assert(before[c as int] == bytes@.take(i as int).to_multiset().count(c));
            }
        }
        i = i + 1;
    }
    assert(bytes@.take(i as int) =~= bytes@);
    h
}

/// How much the bytes of two files are the same, whatever their order.
fn histogram_similarity(l: &[u8], r: &[u8]) -> (s: Ratio)
    ensures
        s == jaccard(l@, r@),
        is_share(s),
{
    let mut h = byte_histogram(r);
    let mut c: usize = 0;
    let mut j: usize = 0;
    proof {
        assert(l@.take(0) =~= Seq::empty());
        lemma_common_bound(l@.take(0), r@);
        lemma_count_empty::<u8>();
    }
    while j < l.len()
        invariant
            j <= l@.len(),
            c <= j,
            h@.len() == 256,
            c == common(l@.take(j as int), r@),
            forall|b: u8|
                #[trigger] h@[b as int] == greatest(
                    r@.to_multiset().count(b) - l@.take(j as int).to_multiset().count(b),
                    0,
                ),
        decreases l@.len() - j,
    {
        let b: u8 = l[j];
        let n: usize = h[b as usize];
        let ghost before = h@;
        proof {
            assert(l@.take(j as int + 1) =~= l@.take(j as int).push(b));
            lemma_common_push(l@.take(j as int), b, r@);
            lemma_count_push(l@.take(j as int), b);
            assert(before[b as int] == n);
        }
        if n > 0 {
            c = c + 1;
            h.set(b as usize, n - 1);
        }
        proof {
            assert forall|x: u8|
                #[trigger] h@[x as int] == greatest(
                    r@.to_multiset().count(x) - l@.take(j as int + 1).to_multiset().count(x),
                    0,
                ) by {
                assert(before[x as int] == greatest(
                    r@.to_multiset().count(x) - l@.take(j as int).to_multiset().count(x),
                    0,
                ));
            }
        }
        j = j + 1;
    }
    proof {
        assert(l@.take(j as int) =~= l@);
        lemma_common_bound(l@, r@);
    }
    common_share(c, l.len(), r.len())
}

/// The lesser size among the greater.
pub open spec fn size_share(l: int, r: int) -> Ratio {
    if l == 0 && r == 0 {
        (Ratio { num: 1, den: 1 })
    } else {
        (Ratio { num: least(l, r) as u128, den: greatest(l, r) as u128 })
    }
}

fn size_similarity(l: usize, r: usize) -> (s: Ratio)
    ensures
        s == size_share(l as int, r as int),
        is_share(s),
{
    if l == 0 && r == 0 {
        Ratio { num: 1, den: 1 }
    } else if l < r {
        Ratio { num: l as u128, den: r as u128 }
    } else {
        Ratio { num: r as u128, den: l as u128 }
    }
}

// ---------------------------------------------------------------------------
// The result
// ---------------------------------------------------------------------------

/// Shares are weighed in parts of this number.
pub const SHARE_WHOLE: u128 = 1_000_000_000_000_000_000;

/// The similarity is given in parts of this number.
pub const SIMILARITY_WHOLE: u128 = 100_000_000_000_000_000_000;

/// A share in parts of `SHARE_WHOLE`, rounded.
pub open spec fn scaled(r: Ratio) -> nat {
    nearest((r.num * SHARE_WHOLE) as nat, r.den as nat)
}

/// The weighted sum of five shares, whose weights are hundredths.
pub open spec fn weighted(
    content: Ratio,
    aligned: Ratio,
    histogram: Ratio,
    shifted: Ratio,
    size: Ratio,
) -> nat {
    35 * scaled(content) + 15 * scaled(aligned) + 35 * scaled(histogram) + 10 * scaled(shifted) + 5
        * scaled(size)
}

fn scale(r: &Ratio) -> (s: u128)
    requires
        is_share(*r),
    ensures
        s == scaled(*r),
        s <= SHARE_WHOLE,
        r.num == r.den ==> s == SHARE_WHOLE,
{
    proof {
        let n = r.num as int;
        let d = r.den as int;
        assert(0 <= n * SHARE_WHOLE <= d * SHARE_WHOLE) by (nonlinear_arith)
            requires
                0 <= n <= d,
        ;
        assert(d * SHARE_WHOLE <= 0x2_0000_0000_0000_0000 * SHARE_WHOLE) by (nonlinear_arith)
            requires
                d <= 0x2_0000_0000_0000_0000,
        ;
        lemma_nearest_share(n as nat, d as nat);
    }
    round(r.num * SHARE_WHOLE, r.den)
}

proof fn lemma_nearest_share(n: nat, d: nat)
    requires
        n <= d,
        d > 0,
    ensures
        nearest(n * SHARE_WHOLE as nat, d) <= SHARE_WHOLE,
        n == d ==> nearest(n * SHARE_WHOLE as nat, d) == SHARE_WHOLE,
{
    let w = SHARE_WHOLE as nat;
    let x = n * w;
    assert(x <= d * w) by (nonlinear_arith)
        requires
            x == n * w,
            n <= d,
    ;
    let q = x / d;
    let rest = x % d;
    assert(q <= w && (q == w ==> rest == 0)) by (nonlinear_arith)
        requires
            q == x / d,
            rest == x % d,
            x <= d * w,
            d > 0,
    ;
    if n == d {
        assert(q == w) by (nonlinear_arith)
            requires
                q == x / d,
                x == d * w,
                d > 0,
        ;
    }
}

/// The hashes of a file.
pub open spec fn digest_fits(digest: &BinaryDigest, bytes: Seq<u8>, config: BinaryDiffConfig) -> bool {
    let end = least(bytes.len() as int, config.window_size as int);
    &&& digest.size == bytes.len()
    &&& digest.full_hash@ == hex64(fnv(bytes))
    &&& digest.head_hash@ == hex64(fnv(bytes.take(end)))
    &&& digest.tail_hash@ == hex64(fnv(bytes.skip(bytes.len() - end)))
    &&& texts(digest.sample_hashes@) == window_hashes(bytes, config).map_values(|h: u64| hex64(h))
}

fn digest_for_file(bytes: &[u8], hashes: &Vec<u64>, config: &BinaryDiffConfig) -> (r: BinaryDigest)
    requires
        hashes@ == window_hashes(bytes@, *config),
    ensures
        digest_fits(&r, bytes@, *config),
{
    let len: usize = bytes.len();
    let end: usize = if len < config.window_size { len } else { config.window_size };
    let head = slice_subrange(bytes, 0, end);
    let tail = slice_subrange(bytes, len - end, len);
    let mut sample_hashes: Vec<String> = Vec::new();
    let mut i: usize = 0;
    while i < hashes.len()
        invariant
            i <= hashes@.len(),
            sample_hashes@.len() == i,
            forall|k: int| 0 <= k < i ==> (#[trigger] sample_hashes@[k])@ == hex64(hashes@[k]),
        decreases hashes@.len() - i,
    {
        sample_hashes.push(hex_sixteen(hashes[i]));
        i = i + 1;
    }
    proof {
        assert(head@ =~= bytes@.take(end as int));
        assert(tail@ =~= bytes@.skip(len - end));
        assert(texts(sample_hashes@) =~= window_hashes(bytes@, *config).map_values(
            |h: u64| hex64(h),
        ));
    }
    BinaryDigest {
        size: len as u64,
        full_hash: hex_sixteen(fnv1a64(bytes)),
        head_hash: hex_sixteen(fnv1a64(head)),
        tail_hash: hex_sixteen(fnv1a64(tail)),
        sample_hashes,
    }
}

/// Whether a result tells how the contents of two files differ.
pub open spec fn is_difference(
    result: &BinaryDiffResult,
    left: Seq<u8>,
    right: Seq<u8>,
    config: BinaryDiffConfig,
) -> bool {
    let l = window_hashes(left, config);
    let r = window_hashes(right, config);
    let zipped = least(l.len() as int, r.len() as int);
    &&& result.aligned_similarity == aligned_share(l, r)
    &&& result.shifted_alignment_similarity == shifted_share(l, r)
    &&& result.content_similarity == jaccard(l, r)
    &&& result.histogram_similarity == jaccard(left, right)
    &&& result.similarity.den == SIMILARITY_WHOLE
    &&& result.similarity.num == weighted(
        result.content_similarity,
        result.aligned_similarity,
        result.histogram_similarity,
        result.shifted_alignment_similarity,
        size_share(left.len() as int, right.len() as int),
    )
    &&& result.windows_compared == greatest(l.len() as int, r.len() as int)
    &&& result.matching_aligned_windows == matches_at(l, r, zipped, 0, zipped)
    &&& digest_fits(&result.left, left, config)
    &&& digest_fits(&result.right, right, config)
}

/// Compares the contents of two files.
pub fn diff_files(left: &[u8], right: &[u8], config: BinaryDiffConfig) -> (r: BinaryDiffResult)
    ensures
        is_difference(&r, left@, right@, config),
        r.similarity.num <= SIMILARITY_WHOLE,
{
    let l = sample_hashes(left, &config);
    let r = sample_hashes(right, &config);
    let (zipped, windows): (usize, usize) = if l.len() < r.len() {
        (l.len(), r.len())
    } else {
        (r.len(), l.len())
    };
    let matching: usize = count_matches(&l, &r, zipped, 0);
    proof {
        lemma_windows_of_nonempty(left@, config);
        lemma_windows_of_nonempty(right@, config);
    }
    let aligned = if zipped == 0 {
        all_or_nothing(l.len() == 0 && r.len() == 0)
    } else {
        Ratio { num: matching as u128, den: zipped as u128 }
    };
    let shifted = best_cyclic_alignment_similarity(&l, &r);
    let content = multiset_jaccard(&l, &r);
    let histogram = histogram_similarity(left, right);
    let size = size_similarity(left.len(), right.len());
    let sum: u128 = 35 * scale(&content) + 15 * scale(&aligned) + 35 * scale(&histogram) + 10
        * scale(&shifted) + 5 * scale(&size);
    BinaryDiffResult {
        similarity: Ratio { num: sum, den: SIMILARITY_WHOLE },
        aligned_similarity: aligned,
        shifted_alignment_similarity: shifted,
        content_similarity: content,
        histogram_similarity: histogram,
        windows_compared: windows,
        matching_aligned_windows: matching,
        left: digest_for_file(left, &l, &config),
        right: digest_for_file(right, &r, &config),
    }
}

/// Exactly the empty file has no windows.
proof fn lemma_windows_of_nonempty(bytes: Seq<u8>, config: BinaryDiffConfig)
    ensures
        (window_hashes(bytes, config).len() == 0) == (bytes.len() == 0),
{
    let window = window_of(bytes.len() as int, config.window_size as int);
    if bytes.len() > window {
        let s = spread(bytes.len() - window, greatest(greatest(config.max_windows as int, 1), 2));
        lemma_dedup_last(s);
    }
}

// ---------------------------------------------------------------------------
// Laws
// ---------------------------------------------------------------------------

/// A file is wholly like itself, whatever the windows.
pub proof fn law_same_file(bytes: Seq<u8>, config: BinaryDiffConfig)
    requires
        bytes.len() <= usize::MAX,
        window_hashes(bytes, config).len() <= usize::MAX,
    ensures
        ({
            let w = window_hashes(bytes, config);
            let size = size_share(bytes.len() as int, bytes.len() as int);
            &&& full(aligned_share(w, w))
            &&& full(shifted_share(w, w))
            &&& full(jaccard(w, w))
            &&& full(jaccard(bytes, bytes))
            &&& weighted(
                jaccard(w, w),
                aligned_share(w, w),
                jaccard(bytes, bytes),
                shifted_share(w, w),
                size,
            ) == SIMILARITY_WHOLE
        }),
{
    let w = window_hashes(bytes, config);
    let n = w.len() as int;
    lemma_self_matches(w, n, n);
    if n > 0 {
        lemma_best_at_least(w, w, n, n, 0);
        lemma_best_bound(w, w, n, n);
    }
    lemma_common_self(w);
    lemma_common_self(bytes);
    lemma_full(jaccard(w, w));
    lemma_full(aligned_share(w, w));
    lemma_full(jaccard(bytes, bytes));
    lemma_full(shifted_share(w, w));
    lemma_full(size_share(bytes.len() as int, bytes.len() as int));
}

/// The share of everything.
pub open spec fn full(r: Ratio) -> bool {
    r.num == r.den && r.den > 0
}

proof fn lemma_full(r: Ratio)
    requires
        full(r),
    ensures
        scaled(r) == SHARE_WHOLE,
{
    lemma_nearest_share(r.num as nat, r.den as nat);
}

proof fn lemma_self_matches(w: Seq<u64>, n: int, k: int)
    requires
        0 <= k <= n <= w.len(),
    ensures
        matches_at(w, w, n, 0, k) == k,
    decreases k,
{
    if k > 0 {
        lemma_self_matches(w, n, k - 1);
        lemma_small_mod((k - 1) as nat, n as nat);
    }
}

proof fn lemma_best_bound(l: Seq<u64>, r: Seq<u64>, n: int, shifts: int)
    requires
        0 <= n,
    ensures
        0 <= best_match(l, r, n, shifts) <= n,
    decreases shifts,
{
    if shifts > 0 {
        lemma_best_bound(l, r, n, shifts - 1);
        lemma_matches_bound(l, r, n, shifts - 1, n);
    }
}

proof fn lemma_best_at_least(l: Seq<u64>, r: Seq<u64>, n: int, shifts: int, shift: int)
    requires
        0 <= shift < shifts,
    ensures
        matches_at(l, r, n, shift, n) <= best_match(l, r, n, shifts),
    decreases shifts,
{
    if shift < shifts - 1 {
        lemma_best_at_least(l, r, n, shifts - 1, shift);
    }
}

proof fn lemma_common_self<A>(s: Seq<A>)
    ensures
        common(s, s) == s.len(),
{
    broadcast use vstd::seq_lib::group_to_multiset_ensures;
    broadcast use vstd::multiset::group_multiset_axioms;
    broadcast use vstd::multiset::group_multiset_properties;

    let m = s.to_multiset();
    assert(m.intersection_with(m) =~= m);
}

/// At its best shift a file agrees in no fewer windows than in their places.
pub proof fn law_shifted_no_less(l: Seq<u64>, r: Seq<u64>)
    requires
        l.len() <= usize::MAX,
        r.len() <= usize::MAX,
    ensures
        shifted_share(l, r).den == aligned_share(l, r).den,
        aligned_share(l, r).num <= shifted_share(l, r).num <= shifted_share(l, r).den,
{
    let n = least(l.len() as int, r.len() as int);
    if n > 0 {
        lemma_best_at_least(l, r, n, n, 0);
        lemma_best_bound(l, r, n, n);
        lemma_matches_bound(l, r, n, 0, n);
    }
}

/// Changing sides changes neither the share of common contents nor that of
/// the sizes.
pub proof fn law_contents_symmetric<A>(l: Seq<A>, r: Seq<A>)
    ensures
        jaccard(l, r) == jaccard(r, l),
        size_share(l.len() as int, r.len() as int) == size_share(r.len() as int, l.len() as int),
{
    lemma_common_bound(l, r);
}

/// The places at which windows agree with the right ones `shift` places on.
spec fn matching_places(l: Seq<u64>, r: Seq<u64>, n: int, shift: int, k: int) -> Set<int> {
    set_int_range(0, k).filter(|i: int| l[i] == r[(i + shift) % n])
}

proof fn lemma_matching_places(l: Seq<u64>, r: Seq<u64>, n: int, shift: int, k: int)
    requires
        0 <= k,
    ensures
        matching_places(l, r, n, shift, k).finite(),
        matching_places(l, r, n, shift, k).len() == matches_at(l, r, n, shift, k),
    decreases k,
{
    let all = matching_places(l, r, n, shift, k);
    if k > 0 {
        lemma_matching_places(l, r, n, shift, k - 1);
        let before = matching_places(l, r, n, shift, k - 1);
        if l[k - 1] == r[(k - 1 + shift) % n] {
            assert(all =~= before.insert(k - 1));
        } else {
            assert(all =~= before);
        }
    } else {
        assert(all =~= Set::<int>::empty());
    }
}

/// Going `shift` places on and the rest of the way round leads back.
proof fn lemma_round(n: int, shift: int, back: int, i: int)
    requires
        0 < n,
        0 <= shift < n,
        0 <= i < n,
        back == (if shift == 0 {
            0
        } else {
            n - shift
        }),
    ensures
        0 <= (i + shift) % n < n,
        ((i + shift) % n + back) % n == i,
{
    if i + shift < n {
        lemma_small_mod((i + shift) as nat, n as nat);
        if shift == 0 {
        } else {
            assert(i + shift + back == i + n);
            lemma_mod_add_multiples_vanish(i, n);
            lemma_small_mod(i as nat, n as nat);
        }
    } else {
        let j = i + shift - n;
        lemma_mod_add_multiples_vanish(j, n);
        lemma_small_mod(j as nat, n as nat);
        assert(n + j == i + shift);
        assert(j + back == i);
        lemma_small_mod(i as nat, n as nat);
    }
}

/// As many windows agree at a shift as do from the other side at the rest of the
/// way round.
proof fn lemma_shift_back(l: Seq<u64>, r: Seq<u64>, n: int, shift: int) -> (back: int)
    requires
        0 < n,
        0 <= shift < n,
    ensures
        0 <= back < n,
        matches_at(l, r, n, shift, n) == matches_at(r, l, n, back, n),
{
    let back = if shift == 0 {
        0
    } else {
        n - shift
    };
    let a = matching_places(l, r, n, shift, n);
    let b = matching_places(r, l, n, back, n);
    let to = |i: int| (i + shift) % n;
    lemma_matching_places(l, r, n, shift, n);
    lemma_matching_places(r, l, n, back, n);
    assert forall|i: int, k: int|
        a.contains(i) && a.contains(k) && #[trigger] to(i) == #[trigger] to(k) implies i == k by {
        lemma_round(n, shift, back, i);
        lemma_round(n, shift, back, k);
    }
    assert forall|j: int| a.map(to).contains(j) <==> b.contains(j) by {
        if a.map(to).contains(j) {
            let i = choose|i: int| a.contains(i) && to(i) == j;
            lemma_round(n, shift, back, i);
        }
        if b.contains(j) {
            let i = (j + back) % n;
            lemma_round(n, back, shift, j);
            assert(a.contains(i) && to(i) == j);
        }
    }
    assert(a.map(to) =~= b);
    lemma_map_size(a, b, to);
    back
}

/// The best match is the match at one of the shifts.
proof fn lemma_best_is_at(l: Seq<u64>, r: Seq<u64>, n: int, shifts: int) -> (shift: int)
    requires
        0 < shifts,
        0 < n,
    ensures
        0 <= shift < shifts,
        best_match(l, r, n, shifts) == matches_at(l, r, n, shift, n),
    decreases shifts,
{
    lemma_matches_bound(l, r, n, shifts - 1, n);
    if shifts == 1 {
        assert(best_match(l, r, n, 0) == 0);
        0
    } else {
        let before = lemma_best_is_at(l, r, n, shifts - 1);
        if best_match(l, r, n, shifts - 1) < matches_at(l, r, n, shifts - 1, n) {
            shifts - 1
        } else {
            before
        }
    }
}

proof fn lemma_best_no_less(l: Seq<u64>, r: Seq<u64>, n: int)
    requires
        0 < n,
    ensures
        best_match(l, r, n, n) <= best_match(r, l, n, n),
{
    let shift = lemma_best_is_at(l, r, n, n);
    let back = lemma_shift_back(l, r, n, shift);
    lemma_best_at_least(r, l, n, n, back);
}

proof fn lemma_aligned_symmetric(l: Seq<u64>, r: Seq<u64>, n: int, k: int)
    requires
        0 <= k <= n,
    ensures
        matches_at(l, r, n, 0, k) == matches_at(r, l, n, 0, k),
    decreases k,
{
    if k > 0 {
        lemma_aligned_symmetric(l, r, n, k - 1);
        lemma_small_mod((k - 1) as nat, n as nat);
    }
}

proof fn lemma_dedup_len(s: Seq<int>)
    ensures
        dedup(s).len() <= s.len(),
    decreases s.len(),
{
    if s.len() > 0 {
        lemma_dedup_len(s.drop_last());
    }
}

/// No file has more windows than are asked for, or than two.
pub proof fn law_windows_are_bounded(bytes: Seq<u8>, config: BinaryDiffConfig)
    ensures
        window_hashes(bytes, config).len() <= greatest(config.max_windows as int, 2),
{
    let window = window_of(bytes.len() as int, config.window_size as int);
    let most = greatest(config.max_windows as int, 1);
    if bytes.len() > window {
        lemma_dedup_len(spread(bytes.len() - window, greatest(most, 2)));
    }
}

/// Whether two digests are the same.
pub open spec fn same_digest(a: &BinaryDigest, b: &BinaryDigest) -> bool {
    &&& a.size == b.size
    &&& a.full_hash@ == b.full_hash@
    &&& a.head_hash@ == b.head_hash@
    &&& a.tail_hash@ == b.tail_hash@
    &&& texts(a.sample_hashes@) == texts(b.sample_hashes@)
}

/// Changing sides changes sides in the result, and nothing else.
pub proof fn law_difference_symmetric(
    there: &BinaryDiffResult,
    back: &BinaryDiffResult,
    left: Seq<u8>,
    right: Seq<u8>,
    config: BinaryDiffConfig,
)
    requires
        is_difference(there, left, right, config),
        is_difference(back, right, left, config),
    ensures
        there.similarity == back.similarity,
        there.aligned_similarity == back.aligned_similarity,
        there.shifted_alignment_similarity == back.shifted_alignment_similarity,
        there.content_similarity == back.content_similarity,
        there.histogram_similarity == back.histogram_similarity,
        there.windows_compared == back.windows_compared,
        there.matching_aligned_windows == back.matching_aligned_windows,
        same_digest(&there.left, &back.right),
        same_digest(&there.right, &back.left),
{
    let l = window_hashes(left, config);
    let r = window_hashes(right, config);
    let n = least(l.len() as int, r.len() as int);
    lemma_aligned_symmetric(l, r, n, n);
    if n > 0 {
        lemma_best_no_less(l, r, n);
        lemma_best_no_less(r, l, n);
    }
    law_contents_symmetric(l, r);
    law_contents_symmetric(left, right);
}

/// The shares of a result lie between nothing and all, and no more windows agree
/// than were compared, of which there are no more than asked for, or than two.
pub proof fn law_difference_is_bounded(
    result: &BinaryDiffResult,
    left: Seq<u8>,
    right: Seq<u8>,
    config: BinaryDiffConfig,
)
    requires
        left.len() <= usize::MAX,
        right.len() <= usize::MAX,
        is_difference(result, left, right, config),
    ensures
        is_part(result.similarity),
        is_part(result.aligned_similarity),
        is_part(result.shifted_alignment_similarity),
        is_part(result.content_similarity),
        is_part(result.histogram_similarity),
        !result.shifted_alignment_similarity.lt(&result.aligned_similarity),
        result.matching_aligned_windows <= result.windows_compared <= greatest(
            config.max_windows as int,
            2,
        ),
{
    let l = window_hashes(left, config);
    let r = window_hashes(right, config);
    let n = least(l.len() as int, r.len() as int);
    law_windows_are_bounded(left, config);
    law_windows_are_bounded(right, config);
    law_shifted_no_less(l, r);
    lemma_matches_bound(l, r, n, 0, n);
    lemma_common_bound(l, r);
    lemma_common_bound(left, right);
    lemma_common_bound(r, l);
    lemma_common_bound(right, left);
    let a = result.aligned_similarity;
    let s = result.shifted_alignment_similarity;
    assert(a.num * s.den <= s.num * a.den) by (nonlinear_arith)
        requires
            a.den == s.den,
            a.num <= s.num,
    ;
    lemma_part_scaled(result.content_similarity);
    lemma_part_scaled(a);
    lemma_part_scaled(result.histogram_similarity);
    lemma_part_scaled(s);
    lemma_part_scaled(size_share(left.len() as int, right.len() as int));
}

/// Whether a fraction lies between nothing and all.
pub open spec fn is_part(r: Ratio) -> bool {
    r.num <= r.den && r.den > 0
}

proof fn lemma_part_scaled(r: Ratio)
    requires
        is_part(r),
    ensures
        scaled(r) <= SHARE_WHOLE,
{
    lemma_nearest_share(r.num as nat, r.den as nat);
}

/// The parts that the five shares have in the similarity, in hundredths: thirty-
/// five that of the contents of the windows and that of the bytes, fifteen that
/// of the windows in their places, ten that of the best shift, five that of the
/// sizes. A result counts in parts of ten to the twentieth, a hundredth of which
/// is ten to the eighteenth.
pub proof fn law_each_share_has_its_part(
    result: &BinaryDiffResult,
    left: Seq<u8>,
    right: Seq<u8>,
    config: BinaryDiffConfig,
    c: nat,
    a: nat,
    h: nat,
    s: nat,
    z: nat,
)
    requires
        is_difference(result, left, right, config),
        0 < left.len() <= usize::MAX,
        0 < right.len() <= usize::MAX,
        is_whole_or_nothing(result.content_similarity, c),
        is_whole_or_nothing(result.aligned_similarity, a),
        is_whole_or_nothing(result.histogram_similarity, h),
        is_whole_or_nothing(result.shifted_alignment_similarity, s),
        z == (if left.len() == right.len() {
            1nat
        } else {
            0
        }),
        z == 1 || left.len() * 2_000_000_000_000_000_000 < right.len() || right.len()
            * 2_000_000_000_000_000_000 < left.len(),
    ensures
        result.similarity.den == 100_000_000_000_000_000_000,
        result.similarity.num == (35 * c + 15 * a + 35 * h + 10 * s + 5 * z)
            * 1_000_000_000_000_000_000,
{
    lemma_whole_or_nothing(result.content_similarity, c);
    lemma_whole_or_nothing(result.aligned_similarity, a);
    lemma_whole_or_nothing(result.histogram_similarity, h);
    lemma_whole_or_nothing(result.shifted_alignment_similarity, s);
    let size = size_share(left.len() as int, right.len() as int);
    if z == 1 {
        lemma_whole_or_nothing(size, 1);
    } else {
        let n = size.num as nat;
        let d = size.den as nat;
        assert((n * SHARE_WHOLE) as nat / d == 0 && 2 * ((n * SHARE_WHOLE) as nat % d) < d)
            by (nonlinear_arith)
            requires
                n * 2_000_000_000_000_000_000 < d,
                SHARE_WHOLE == 1_000_000_000_000_000_000,
                0 <= n,
        ;
    }
}

/// Whether a share is all, or nothing.
pub open spec fn is_whole_or_nothing(r: Ratio, one: nat) -> bool {
    r.den > 0 && ((one == 1 && r.num == r.den) || (one == 0 && r.num == 0))
}

proof fn lemma_whole_or_nothing(r: Ratio, one: nat)
    requires
        is_whole_or_nothing(r, one),
    ensures
        scaled(r) == one * 1_000_000_000_000_000_000,
{
    if one == 1 {
        lemma_full(r);
    } else {
        let d = r.den as nat;
        assert(0nat / d == 0 && 0nat % d == 0) by (nonlinear_arith)
            requires
                d > 0,
        ;
    }
}

/// Whether a number of parts of ten to the eighteenth is next to a fraction.
pub open spec fn is_next_to(parts: int, r: Ratio) -> bool {
    &&& 2 * (parts * r.den - r.num * 1_000_000_000_000_000_000) <= r.den
    &&& 2 * (r.num * 1_000_000_000_000_000_000 - parts * r.den) <= r.den
}

proof fn lemma_scaled_is_next_to(r: Ratio)
    requires
        r.den > 0,
    ensures
        is_next_to(scaled(r) as int, r),
{
    let n = (r.num * SHARE_WHOLE) as nat;
    let d = r.den as nat;
    let q = n / d;
    let m = n % d;
    assert(n == q * d + m && m < d) by (nonlinear_arith)
        requires
            q == n / d,
            m == n % d,
            d > 0,
    ;
    assert((q + 1) * d == q * d + d) by (nonlinear_arith);
}

/// The similarity is the sum of the five shares, each with its part: thirty-five
/// hundredths of that of the contents of the windows, fifteen of that of the
/// windows in their places, thirty-five of that of the bytes, ten of that of the
/// best shift, and five of that of the sizes, which is the lesser size in the
/// greater.
pub proof fn law_similarity_is_the_sum_of_its_parts(
    result: &BinaryDiffResult,
    left: Seq<u8>,
    right: Seq<u8>,
    config: BinaryDiffConfig,
) -> (parts: (int, int, int, int, int))
    requires
        is_difference(result, left, right, config),
        left.len() <= usize::MAX,
        right.len() <= usize::MAX,
        left.len() + right.len() > 0,
    ensures
        is_next_to(parts.0, result.content_similarity),
        is_next_to(parts.1, result.aligned_similarity),
        is_next_to(parts.2, result.histogram_similarity),
        is_next_to(parts.3, result.shifted_alignment_similarity),
        left.len() <= right.len() ==> is_next_to(
            parts.4,
            Ratio { num: left.len() as u128, den: right.len() as u128 },
        ),
        right.len() <= left.len() ==> is_next_to(
            parts.4,
            Ratio { num: right.len() as u128, den: left.len() as u128 },
        ),
        result.similarity.num == 35 * parts.0 + 15 * parts.1 + 35 * parts.2 + 10 * parts.3 + 5
            * parts.4,
        result.similarity.den == 100_000_000_000_000_000_000,
{
    law_difference_is_bounded(result, left, right, config);
    let size = size_share(left.len() as int, right.len() as int);
    lemma_scaled_is_next_to(result.content_similarity);
    lemma_scaled_is_next_to(result.aligned_similarity);
    lemma_scaled_is_next_to(result.histogram_similarity);
    lemma_scaled_is_next_to(result.shifted_alignment_similarity);
    lemma_scaled_is_next_to(size);
    (
        scaled(result.content_similarity) as int,
        scaled(result.aligned_similarity) as int,
        scaled(result.histogram_similarity) as int,
        scaled(result.shifted_alignment_similarity) as int,
        scaled(size) as int,
    )
}

/// The contents of two files are wholly shared exactly where they have the same
/// items equally often, and not at all exactly where they have none in common.
pub proof fn law_share_of_contents<A>(l: Seq<A>, r: Seq<A>)
    requires
        l.len() <= usize::MAX,
        r.len() <= usize::MAX,
        l.len() + r.len() > 0,
    ensures
        jaccard(l, r).num == jaccard(l, r).den <==> l.to_multiset() == r.to_multiset(),
        jaccard(l, r).num == 0 <==> forall|x: A| !(#[trigger] l.contains(x) && r.contains(x)),
        jaccard(l, r).num + jaccard(l, r).den == l.len() + r.len(),
{
    broadcast use vstd::seq_lib::group_to_multiset_ensures;
    broadcast use vstd::multiset::group_multiset_axioms;
    broadcast use vstd::multiset::group_multiset_properties;

    let a = l.to_multiset();
    let b = r.to_multiset();
    let c = a.intersection_with(b);
    lemma_common_bound(l, r);
    assert(c.subset_of(a) && c.subset_of(b));
    assert(a.sub(c).len() == a.len() - c.len());
    assert(b.sub(c).len() == b.len() - c.len());
    if a == b {
        assert(c =~= a);
    }
    if c.len() == a.len() && c.len() == b.len() {
        assert forall|x: A| a.count(x) == b.count(x) by {
            if a.count(x) > c.count(x) {
                assert(a.sub(c).count(x) > 0);
            }
            if b.count(x) > c.count(x) {
                assert(b.sub(c).count(x) > 0);
            }
        }
        assert(a =~= b);
    }
    if c.len() == 0 {
        assert forall|x: A| !(#[trigger] l.contains(x) && r.contains(x)) by {
            if l.contains(x) && r.contains(x) {
                assert(c.count(x) > 0);
            }
        }
    }
    if forall|x: A| !(#[trigger] l.contains(x) && r.contains(x)) {
        assert forall|x: A| c.count(x) == 0 by {
            assert(!(l.contains(x) && r.contains(x)));
            assert(l.contains(x) <==> a.count(x) > 0);
            assert(r.contains(x) <==> b.count(x) > 0);
        }
        assert(c =~= Multiset::empty());
    }
}

/// Windows agree wholly in their places exactly where they are the same, as far
/// as both files have them; and wholly at a shift where one goes round into the
/// other.
pub proof fn law_share_of_windows(l: Seq<u64>, r: Seq<u64>)
    requires
        0 < l.len() <= r.len() <= usize::MAX,
    ensures
        aligned_share(l, r).den == l.len(),
        aligned_share(l, r).num == l.len() <==> l == r.take(l.len() as int),
        aligned_share(l, r).num == 0 <==> forall|i: int| 0 <= i < l.len() ==> #[trigger] l[i] != r[i],
        shifted_share(l, r).den == l.len(),
        forall|shift: int| #[trigger] goes_round(l, r, shift) ==> shifted_share(l, r).num == l.len(),
{
    let n = l.len() as int;
    lemma_matches_bound(l, r, n, 0, n);
    lemma_matches_all(l, r, n, 0, n);
    lemma_best_bound(l, r, n, n);
    assert forall|i: int| 0 <= i < n implies #[trigger] (i % n) == i by {
        lemma_small_mod(i as nat, n as nat);
    }
    if aligned_share(l, r).num == n {
        assert forall|i: int| 0 <= i < n implies l[i] == r.take(n)[i] by {
            assert(l[i] == r[(i + 0) % n]);
        }
        assert(l =~= r.take(n));
    }
    if l == r.take(n) {
        assert forall|i: int| 0 <= i < n implies #[trigger] l[i] == r[(i + 0) % n] by {
            assert(l[i] == r.take(n)[i]);
        }
    }
    if aligned_share(l, r).num == 0 {
        assert forall|i: int| 0 <= i < n implies #[trigger] l[i] != r[i] by {
            assert(l[i] != r[(i + 0) % n]);
        }
    }
    if forall|i: int| 0 <= i < n ==> #[trigger] l[i] != r[i] {
        assert forall|i: int| 0 <= i < n implies #[trigger] l[i] != r[(i + 0) % n] by {}
    }
    assert forall|shift: int| #[trigger] goes_round(l, r, shift) implies shifted_share(l, r).num
        == n by {
        lemma_matches_all(l, r, n, shift, n);
        lemma_best_at_least(l, r, n, n, shift);
    }
}

/// Whether windows are those of another file some places on, going round.
pub open spec fn goes_round(l: Seq<u64>, r: Seq<u64>, shift: int) -> bool {
    0 <= shift < l.len() && forall|i: int| 0 <= i < l.len() ==> #[trigger] l[i] == r[(i + shift)
        % l.len() as int]
}

proof fn lemma_matches_all(l: Seq<u64>, r: Seq<u64>, n: int, shift: int, k: int)
    requires
        0 <= k,
    ensures
        0 <= matches_at(l, r, n, shift, k) <= k,
        matches_at(l, r, n, shift, k) == k <==> forall|i: int|
            0 <= i < k ==> #[trigger] l[i] == r[(i + shift) % n],
        matches_at(l, r, n, shift, k) == 0 <==> forall|i: int|
            0 <= i < k ==> #[trigger] l[i] != r[(i + shift) % n],
    decreases k,
{
    if k > 0 {
        lemma_matches_all(l, r, n, shift, k - 1);
        lemma_matches_bound(l, r, n, shift, k - 1);
        if matches_at(l, r, n, shift, k) == k {
            assert forall|i: int| 0 <= i < k implies #[trigger] l[i] == r[(i + shift) % n] by {
                if i < k - 1 {
                }
            }
        }
        if matches_at(l, r, n, shift, k) == 0 {
            assert forall|i: int| 0 <= i < k implies #[trigger] l[i] != r[(i + shift) % n] by {
                if i < k - 1 {
                }
            }
        }
        assert(l[k - 1] == l[k - 1]);
    }
}

/// The windows of a file reach from its start to its end, and each is hashed as
/// it stands.
pub proof fn law_windows_reach_both_ends(bytes: Seq<u8>, config: BinaryDiffConfig)
    requires
        0 < config.window_size < bytes.len(),
    ensures
        window_hashes(bytes, config).len() >= 1,
        window_hashes(bytes, config)[0] == fnv(bytes.take(config.window_size as int)),
        window_hashes(bytes, config).last() == fnv(bytes.skip(bytes.len() - config.window_size)),
{
    let window = window_of(bytes.len() as int, config.window_size as int);
    let limit = bytes.len() - window;
    let target = greatest(greatest(config.max_windows as int, 1), 2);
    let s = spread(limit, target);
    lemma_dedup_last(s);
    lemma_dedup_first(s);
    assert(s[0] == 0) by (nonlinear_arith)
        requires
            s[0] == 0 * limit / (target - 1),
            target >= 2,
    ;
    assert(s.last() == limit) by (nonlinear_arith)
        requires
            s.last() == (target - 1) * limit / (target - 1),
            target >= 2,
            limit >= 0,
    ;
    assert(bytes.subrange(0, window) =~= bytes.take(window));
    assert(bytes.subrange(limit, limit + window) =~= bytes.skip(limit));
}

proof fn lemma_dedup_first(s: Seq<int>)
    requires
        s.len() > 0,
    ensures
        dedup(s).len() > 0,
        dedup(s)[0] == s[0],
    decreases s.len(),
{
    if s.len() > 1 {
        lemma_dedup_first(s.drop_last());
    } else {
        assert(dedup(s.drop_last()) =~= Seq::empty());
    }
}

/// A digest gives the size of a file, the hash of all of it, and those of its
/// first and last window; a file that is shorter than a window is its own first
/// and last.
pub proof fn law_digest_tells_its_file(
    digest: &BinaryDigest,
    bytes: Seq<u8>,
    config: BinaryDiffConfig,
)
    requires
        digest_fits(digest, bytes, config),
    ensures
        digest.size == bytes.len(),
        digest.full_hash@ == hex64(fnv(bytes)),
        bytes.len() >= config.window_size ==> digest.head_hash@ == hex64(
            fnv(bytes.take(config.window_size as int)),
        ),
        bytes.len() >= config.window_size ==> digest.tail_hash@ == hex64(
            fnv(bytes.skip(bytes.len() - config.window_size)),
        ),
        bytes.len() < config.window_size ==> digest.head_hash@ == digest.full_hash@,
        bytes.len() < config.window_size ==> digest.tail_hash@ == digest.full_hash@,
        digest.sample_hashes@.len() == window_hashes(bytes, config).len(),
{
    assert(bytes.take(bytes.len() as int) =~= bytes);
    assert(bytes.skip(0) =~= bytes);
    assert(texts(digest.sample_hashes@).len() == digest.sample_hashes@.len());
}

/// As many windows are compared as the file with more of them has.
pub proof fn law_windows_that_are_compared(
    result: &BinaryDiffResult,
    left: Seq<u8>,
    right: Seq<u8>,
    config: BinaryDiffConfig,
)
    requires
        is_difference(result, left, right, config),
    ensures
        result.windows_compared >= window_hashes(left, config).len(),
        result.windows_compared >= window_hashes(right, config).len(),
        result.windows_compared == window_hashes(left, config).len() || result.windows_compared
            == window_hashes(right, config).len(),
        result.matching_aligned_windows <= window_hashes(left, config).len(),
        result.matching_aligned_windows <= window_hashes(right, config).len(),
{
    let l = window_hashes(left, config);
    let r = window_hashes(right, config);
    let n = least(l.len() as int, r.len() as int);
    lemma_matches_bound(l, r, n, 0, n);
}

/// The sizes of two files are alike as the lesser is to the greater.
pub proof fn law_sizes_are_alike(l: int, r: int)
    requires
        0 <= l <= u64::MAX,
        0 <= r <= u64::MAX,
        l > 0 || r > 0,
    ensures
        l <= r ==> size_share(l, r).num == l && size_share(l, r).den == r,
        r <= l ==> size_share(l, r).num == r && size_share(l, r).den == l,
{
}

} // verus!
