//! Maps and sets with text keys, kept in the order of the keys.

use crate::text::{
    lemma_text_lt_asymmetric, lemma_text_lt_irreflexive, lemma_text_lt_total,
    lemma_text_lt_transitive, same, text_before, text_lt, texts,
};
use vstd::prelude::*;

verus! {

/// Whether each text stands before all that follow it.
pub open spec fn ascending(k: Seq<Seq<char>>) -> bool {
    forall|i: int, j: int| 0 <= i < j < k.len() ==> text_lt(#[trigger] k[i], #[trigger] k[j])
}

/// Two ascending sequences of the same texts are equal.
pub proof fn lemma_ascending_unique(a: Seq<Seq<char>>, b: Seq<Seq<char>>)
    requires
        ascending(a),
        ascending(b),
        forall|k: Seq<char>| a.contains(k) <==> b.contains(k),
    ensures
        a == b,
    decreases a.len(),
{
    if a.len() == 0 {
        if b.len() > 0 {
            assert(b.contains(b[0]));
            assert(a.contains(b[0]));
        }
        assert(a =~= b);
    } else if b.len() == 0 {
        assert(a.contains(a[0]));
        assert(b.contains(a[0]));
    } else {
        let x = a.last();
        let y = b.last();
        assert(a[a.len() - 1] == x);
        assert(b[b.len() - 1] == y);
        assert(a.contains(x));
        assert(b.contains(x));
        assert(b.contains(y));
        assert(a.contains(y));
        let i = choose|i: int| 0 <= i < b.len() && b[i] == x;
        let j = choose|j: int| 0 <= j < a.len() && a[j] == y;
        if i < b.len() - 1 && j < a.len() - 1 {
            assert(text_lt(b[i], b[b.len() - 1]));
            assert(text_lt(a[j], a[a.len() - 1]));
            lemma_text_lt_asymmetric(x, y);
        }
        assert(x == y);
        assert forall|k: Seq<char>| a.drop_last().contains(k) <==> b.drop_last().contains(k) by {
            if a.drop_last().contains(k) {
                let p = choose|p: int| 0 <= p < a.drop_last().len() && a.drop_last()[p] == k;
                assert(a[p] == k);
                assert(text_lt(a[p], a[a.len() - 1]));
                lemma_text_lt_irreflexive(x);
                assert(b.contains(k));
                let q = choose|q: int| 0 <= q < b.len() && b[q] == k;
                assert(b.drop_last()[q] == k);
            }
            if b.drop_last().contains(k) {
                let p = choose|p: int| 0 <= p < b.drop_last().len() && b.drop_last()[p] == k;
                assert(b[p] == k);
                assert(text_lt(b[p], b[b.len() - 1]));
                lemma_text_lt_irreflexive(x);
                assert(a.contains(k));
                let q = choose|q: int| 0 <= q < a.len() && a[q] == k;
                assert(a.drop_last()[q] == k);
            }
        }
        lemma_ascending_unique(a.drop_last(), b.drop_last());
        assert(a =~= a.drop_last().push(x));
        assert(b =~= b.drop_last().push(x));
    }
}

/// No two of the texts are equal.
pub proof fn lemma_ascending_distinct(k: Seq<Seq<char>>)
    requires
        ascending(k),
    ensures
        k.no_duplicates(),
{
    assert forall|i: int, j: int| 0 <= i < k.len() && 0 <= j < k.len() && i != j implies k[i]
        != k[j] by {
        lemma_text_lt_irreflexive(k[i]);
        if i < j {
            assert(text_lt(k[i], k[j]));
        } else {
            assert(text_lt(k[j], k[i]));
        }
    }
}

// ---------------------------------------------------------------------------
// Texts in order, each once
// ---------------------------------------------------------------------------

/// An ascending sequence with one more text in it.
pub open spec fn with_text(s: Seq<Seq<char>>, x: Seq<char>) -> Seq<Seq<char>>
    decreases s.len(),
{
    if s.len() == 0 {
        seq![x]
    } else if s.last() == x {
        s
    } else if text_lt(s.last(), x) {
        s.push(x)
    } else {
        with_text(s.drop_last(), x).push(s.last())
    }
}

/// The texts of a sequence in order, each once.
pub open spec fn sorted_set(v: Seq<Seq<char>>) -> Seq<Seq<char>>
    decreases v.len(),
{
    if v.len() == 0 {
        Seq::empty()
    } else {
        with_text(sorted_set(v.drop_last()), v.last())
    }
}

proof fn lemma_with_text(s: Seq<Seq<char>>, x: Seq<char>)
    requires
        ascending(s),
    ensures
        ascending(with_text(s, x)),
        forall|k: Seq<char>|
            #[trigger] with_text(s, x).contains(k) <==> s.contains(k) || k == x,
        with_text(s, x).len() <= s.len() + 1,
    decreases s.len(),
{
    let r = with_text(s, x);
    if s.len() == 0 {
        assert(r[0] == x);
        assert forall|k: Seq<char>| #[trigger] r.contains(k) <==> s.contains(k) || k == x by {
            if k == x {
                assert(r[0] == k);
            }
        }
    } else if s.last() == x {
        assert(s[s.len() - 1] == x);
    } else if text_lt(s.last(), x) {
        assert forall|i: int, j: int| 0 <= i < j < r.len() implies text_lt(
            #[trigger] r[i],
            #[trigger] r[j],
        ) by {
            assert(r[i] == s[i]);
            if j == s.len() {
                if i < s.len() - 1 {
                    assert(text_lt(s[i], s[s.len() - 1]));
                    lemma_text_lt_transitive(s[i], s.last(), x);
                }
            } else {
                assert(r[j] == s[j]);
            }
        }
        assert forall|k: Seq<char>| #[trigger] r.contains(k) <==> s.contains(k) || k == x by {
            if s.contains(k) {
                let i = s.index_of(k);
                assert(r[i] == k);
            }
            if k == x {
                assert(r[s.len() as int] == k);
            }
        }
    } else {
        let init = s.drop_last();
        lemma_with_text(init, x);
        lemma_text_lt_total(s.last(), x);
        let w = with_text(init, x);
        assert forall|i: int, j: int| 0 <= i < j < r.len() implies text_lt(
            #[trigger] r[i],
            #[trigger] r[j],
        ) by {
            assert(r[i] == w[i]);
            if j == w.len() {
                assert(w.contains(w[i]));
                if init.contains(w[i]) {
                    let m = init.index_of(w[i]);
                    assert(s[m] == w[i]);
                    assert(text_lt(s[m], s[s.len() - 1]));
                }
            } else {
                assert(r[j] == w[j]);
            }
        }
        assert forall|k: Seq<char>| #[trigger] r.contains(k) <==> s.contains(k) || k == x by {
            if r.contains(k) {
                let i = r.index_of(k);
                if i < w.len() {
                    assert(w[i] == k);
                    assert(w.contains(k));
                    if init.contains(k) {
                        assert(s[init.index_of(k)] == k);
                    }
                } else {
                    assert(s[s.len() - 1] == k);
                }
            }
            if s.contains(k) {
                let i = s.index_of(k);
                if i < init.len() {
                    assert(init[i] == k);
                    assert(w.contains(k));
                } else {
                    assert(r[w.len() as int] == k);
                }
            }
            if w.contains(k) {
                assert(r[w.index_of(k)] == k);
            }
            if k == x {
                assert(w.contains(k));
            }
        }
    }
}

/// The texts in order hold each text of the sequence once, and no other.
pub proof fn lemma_sorted_set(v: Seq<Seq<char>>)
    ensures
        ascending(sorted_set(v)),
        forall|k: Seq<char>| #[trigger] sorted_set(v).contains(k) <==> v.contains(k),
        sorted_set(v).len() <= v.len(),
    decreases v.len(),
{
    if v.len() > 0 {
        let init = v.drop_last();
        lemma_sorted_set(init);
        lemma_with_text(sorted_set(init), v.last());
        assert forall|k: Seq<char>| #[trigger] sorted_set(v).contains(k) <==> v.contains(k) by {
            if v.contains(k) {
                let i = v.index_of(k);
                if i < init.len() {
                    assert(init[i] == k);
                    assert(init.contains(k));
                }
            }
            if init.contains(k) {
                assert(v[init.index_of(k)] == k);
            }
            assert(v[v.len() - 1] == v.last());
        }
    }
}

/// What is chosen of an ascending sequence is ascending.
pub proof fn lemma_filter_ascending(s: Seq<Seq<char>>, keep: spec_fn(Seq<char>) -> bool)
    requires
        ascending(s),
    ensures
        ascending(s.filter(keep)),
        forall|k: Seq<char>| #[trigger] s.filter(keep).contains(k) ==> s.contains(k),
    decreases s.len(),
{
    reveal(Seq::filter);
    if s.len() > 0 {
        let init = s.drop_last();
        lemma_filter_ascending(init, keep);
        let f = init.filter(keep);
        let r = s.filter(keep);
        assert forall|i: int, j: int| 0 <= i < j < r.len() implies text_lt(
            #[trigger] r[i],
            #[trigger] r[j],
        ) by {
            assert(r[i] == f[i]);
            if j < f.len() {
                assert(r[j] == f[j]);
            } else {
                assert(f.contains(f[i]));
                let m = init.index_of(f[i]);
                assert(s[m] == f[i]);
                assert(text_lt(s[m], s[s.len() - 1]));
            }
        }
        assert forall|k: Seq<char>| #[trigger] r.contains(k) implies s.contains(k) by {
            let i = r.index_of(k);
            if i < f.len() {
                assert(f[i] == k);
                assert(f.contains(k));
                assert(s[init.index_of(k)] == k);
            } else {
                assert(s[s.len() - 1] == k);
            }
        }
    }
}

/// An ascending sequence with the texts of another is that other's texts in order.
pub proof fn lemma_sorted_set_unique(s: Seq<Seq<char>>, v: Seq<Seq<char>>)
    requires
        ascending(s),
        forall|k: Seq<char>| s.contains(k) <==> v.contains(k),
    ensures
        s == sorted_set(v),
{
    lemma_sorted_set(v);
    lemma_ascending_unique(s, sorted_set(v));
}

/// The texts of the strings in order, each once.
pub fn sort_distinct(v: &Vec<String>) -> (r: Vec<String>)
    ensures
        texts(r@) == sorted_set(texts(v@)),
{
    let mut set = TextSet::new();
    let mut i: usize = 0;
    while i < v.len()
        invariant
            i <= v.len(),
            set.wf(),
            set.seq() == sorted_set(texts(v@).take(i as int)),
        decreases v.len() - i,
    {
        let ghost before = texts(v@).take(i as int);
        let ghost after = texts(v@).take(i as int + 1);
        let ghost old_set = set@;
        set.insert(v[i].clone());
        proof {
            assert(after.drop_last() =~= before);
            assert(after.last() == v@[i as int]@);
            lemma_sorted_set(before);
            assert forall|k: Seq<char>| set.seq().contains(k) <==> after.contains(k) by {
                assert(set@.contains(k) <==> old_set.contains(k) || k == after.last());
                assert(old_set.contains(k) <==> sorted_set(before).contains(k));
                if before.contains(k) {
                    assert(after[before.index_of(k)] == k);
                }
                if after.contains(k) {
                    let m = after.index_of(k);
                    if m < before.len() {
                        assert(before[m] == k);
                    }
                }
                assert(after[i as int] == after.last());
            }
            lemma_sorted_set_unique(set.seq(), after);
            lemma_sorted_set(after);
        }
        i = i + 1;
    }
    assert(texts(v@).take(i as int) =~= texts(v@));
    set.into_vec()
}

/// A map from texts to values, its entries in the order of the texts.
#[derive(Debug)]
pub struct TextMap<V> {
    keys: Vec<String>,
    values: Vec<V>,
}

impl<V> View for TextMap<V> {
    type V = Map<Seq<char>, V>;

    closed spec fn view(&self) -> Map<Seq<char>, V> {
        Map::new(
            |k: Seq<char>| self.key_seq().contains(k),
            |k: Seq<char>| self.value_seq()[self.key_seq().index_of(k)],
        )
    }
}

impl<V> TextMap<V> {
    /// The keys, in order.
    pub closed spec fn key_seq(&self) -> Seq<Seq<char>> {
        texts(self.keys@)
    }

    /// The values, in the order of their keys.
    pub closed spec fn value_seq(&self) -> Seq<V> {
        self.values@
    }

    pub open spec fn wf(&self) -> bool {
        &&& ascending(self.key_seq())
        &&& self.key_seq().len() == self.value_seq().len()
        &&& self.key_seq().len() <= usize::MAX
    }

    /// What the map holds, entry by entry.
    pub proof fn lemma_entries(&self)
        requires
            self.wf(),
        ensures
            forall|k: Seq<char>| #[trigger] self@.contains_key(k) <==> self.key_seq().contains(k),
            forall|i: int|
                0 <= i < self.key_seq().len() ==> self@.contains_key(#[trigger] self.key_seq()[i])
                    && self@[self.key_seq()[i]] == self.value_seq()[i],
    {
        lemma_ascending_distinct(self.key_seq());
        let keys = self.key_seq();
        assert forall|i: int| 0 <= i < keys.len() implies self@.contains_key(#[trigger] keys[i])
            && self@[keys[i]] == self.value_seq()[i] by {
            assert(keys.contains(keys[i]));
            let j = keys.index_of(keys[i]);
            assert(0 <= j < keys.len() && keys[j] == keys[i]);
        }
    }

    pub fn new() -> (r: Self)
        ensures
            r.wf(),
            r@ == Map::<Seq<char>, V>::empty(),
            r.key_seq() == Seq::<Seq<char>>::empty(),
            r.value_seq() == Seq::<V>::empty(),
    {
        let r = TextMap { keys: Vec::new(), values: Vec::new() };
        proof {
            assert(r.key_seq() =~= Seq::<Seq<char>>::empty());
            assert(r.value_seq() =~= Seq::<V>::empty());
            assert(r@ =~= Map::<Seq<char>, V>::empty());
        }
        r
    }

    pub fn len(&self) -> (r: usize)
        ensures
            r == self.key_seq().len(),
    {
        self.keys.len()
    }

    pub fn is_empty(&self) -> (r: bool)
        ensures
            r == (self.key_seq().len() == 0),
    {
        self.keys.len() == 0
    }

    /// The key of an entry.
    pub fn key_at(&self, i: usize) -> (r: &String)
        requires
            i < self.key_seq().len(),
        ensures
            r@ == self.key_seq()[i as int],
    {
        &self.keys[i]
    }

    /// The value of an entry.
    pub fn value_at(&self, i: usize) -> (r: &V)
        requires
            self.wf(),
            i < self.key_seq().len(),
        ensures
            *r == self.value_seq()[i as int],
    {
        &self.values[i]
    }

    /// The index of a key, or the index at which it would have to stand.
    pub fn position(&self, key: &str) -> (r: Result<usize, usize>)
        requires
            self.wf(),
        ensures
            match r {
                Ok(i) => i < self.key_seq().len() && self.key_seq()[i as int] == key@,
                Err(i) => {
                    &&& i <= self.key_seq().len()
                    &&& forall|j: int| 0 <= j < i ==> text_lt(#[trigger] self.key_seq()[j], key@)
                    &&& forall|j: int|
                        i <= j < self.key_seq().len() ==> text_lt(
                            key@,
                            #[trigger] self.key_seq()[j],
                        )
                },
            },
    {
        let mut low: usize = 0;
        let mut high: usize = self.keys.len();
        while low < high
            invariant
                self.wf(),
                low <= high <= self.keys@.len(),
                forall|j: int| 0 <= j < low ==> text_lt(#[trigger] self.key_seq()[j], key@),
                forall|j: int|
                    high <= j < self.key_seq().len() ==> text_lt(
                        key@,
                        #[trigger] self.key_seq()[j],
                    ),
            decreases high - low,
        {
            let mid: usize = low + (high - low) / 2;
            let ghost keys = self.key_seq();
            assert(keys[mid as int] == self.keys@[mid as int]@);
            if same(self.keys[mid].as_str(), key) {
                return Ok(mid);
            }
            if text_before(self.keys[mid].as_str(), key) {
                proof {
                    assert forall|j: int| 0 <= j <= mid implies text_lt(
                        #[trigger] keys[j],
                        key@,
                    ) by {
                        if j < mid {
                            lemma_text_lt_transitive(keys[j], keys[mid as int], key@);
                        }
                    }
                }
                low = mid + 1;
            } else {
                proof {
                    lemma_text_lt_total(keys[mid as int], key@);
                    assert forall|j: int| mid <= j < keys.len() implies text_lt(
                        key@,
                        #[trigger] keys[j],
                    ) by {
                        if mid < j {
                            lemma_text_lt_transitive(key@, keys[mid as int], keys[j]);
                        }
                    }
                }
                high = mid;
            }
        }
        Err(low)
    }

    proof fn lemma_position_absent(&self, key: Seq<char>, i: int)
        requires
            self.wf(),
            0 <= i <= self.key_seq().len(),
            forall|j: int| 0 <= j < i ==> text_lt(#[trigger] self.key_seq()[j], key),
            forall|j: int| i <= j < self.key_seq().len() ==> text_lt(key, #[trigger] self.key_seq()[j]),
        ensures
            !self.key_seq().contains(key),
    {
        lemma_text_lt_irreflexive(key);
    }

    pub fn contains_key(&self, key: &str) -> (r: bool)
        requires
            self.wf(),
        ensures
            r == self@.contains_key(key@),
    {
        proof {
            self.lemma_entries();
        }
        match self.position(key) {
            Ok(i) => {
                assert(self.key_seq().contains(self.key_seq()[i as int]));
                true
            },
            Err(i) => {
                proof {
                    self.lemma_position_absent(key@, i as int);
                }
                false
            },
        }
    }

    pub fn get(&self, key: &str) -> (r: Option<&V>)
        requires
            self.wf(),
        ensures
            match r {
                Some(v) => self@.contains_key(key@) && *v == self@[key@],
                None => !self@.contains_key(key@),
            },
    {
        proof {
            self.lemma_entries();
        }
        match self.position(key) {
            Ok(i) => {
                assert(self.key_seq().contains(self.key_seq()[i as int]));
                Some(&self.values[i])
            },
            Err(i) => {
                proof {
                    self.lemma_position_absent(key@, i as int);
                }
                None
            },
        }
    }

    /// The value of an entry, to change.
    pub fn value_mut(&mut self, i: usize) -> (r: &mut V)
        requires
            old(self).wf(),
            i < old(self).key_seq().len(),
        ensures
            *r == old(self).value_seq()[i as int],
            final(self).wf(),
            final(self).key_seq() == old(self).key_seq(),
            final(self).value_seq() == old(self).value_seq().update(i as int, *final(r)),
    {
        &mut self.values[i]
    }

    /// Changing the value of an entry changes what the map holds for its key.
    pub proof fn lemma_updated(before: Self, after: Self, i: int)
        requires
            before.wf(),
            after.wf(),
            0 <= i < before.key_seq().len(),
            after.key_seq() == before.key_seq(),
            after.value_seq() == before.value_seq().update(i, after.value_seq()[i]),
        ensures
            after@ == before@.insert(before.key_seq()[i], after.value_seq()[i]),
    {
        before.lemma_entries();
        after.lemma_entries();
        lemma_ascending_distinct(after.key_seq());
        let k = before.key_seq()[i];
        let keys = after.key_seq();
        assert(keys.contains(k));
        assert(after@ =~= before@.insert(k, after.value_seq()[i])) by {
            assert forall|q: Seq<char>| after@.contains_key(q) implies after@[q] == before@.insert(
                k,
                after.value_seq()[i],
            )[q] by {
                let p = keys.index_of(q);
                assert(keys[p] == q);
                if p != i {
                    assert(keys[p] != keys[i]);
                }
            }
        }
    }

    /// Changes the value of an entry.
    pub fn set_at(&mut self, i: usize, value: V)
        requires
            old(self).wf(),
            i < old(self).key_seq().len(),
        ensures
            final(self).wf(),
            final(self).key_seq() == old(self).key_seq(),
            final(self).value_seq() == old(self).value_seq().update(i as int, value),
            final(self)@ == old(self)@.insert(old(self).key_seq()[i as int], value),
    {
        let ghost before = *self;
        self.values.set(i, value);
        proof {
            Self::lemma_updated(before, *self, i as int);
        }
    }

    /// Adds an entry at the index at which it has to stand.
    fn insert_new(&mut self, i: usize, key: String, value: V)
        requires
            old(self).wf(),
            i <= old(self).key_seq().len(),
            forall|j: int| 0 <= j < i ==> text_lt(#[trigger] old(self).key_seq()[j], key@),
            forall|j: int|
                i <= j < old(self).key_seq().len() ==> text_lt(
                    key@,
                    #[trigger] old(self).key_seq()[j],
                ),
        ensures
            final(self).wf(),
            final(self)@ == old(self)@.insert(key@, value),
            !old(self)@.contains_key(key@),
            final(self).key_seq() == old(self).key_seq().insert(i as int, key@),
            final(self).value_seq() == old(self).value_seq().insert(i as int, value),
    {
        let ghost before = *self;
        let ghost k = key@;
        proof {
            before.lemma_entries();
            before.lemma_position_absent(k, i as int);
        }
        self.keys.insert(i, key);
        self.values.insert(i, value);
        proof {
            let keys = self.key_seq();
            let old_keys = before.key_seq();
            assert(keys =~= old_keys.insert(i as int, k));
            assert(keys.len() == self.keys.len());
            assert forall|a: int, b: int| 0 <= a < b < keys.len() implies text_lt(
                #[trigger] keys[a],
                #[trigger] keys[b],
            ) by {
                let p = if a < i { a } else { a - 1 };
                let q = if b < i { b } else { b - 1 };
                if a != i {
                    assert(keys[a] == old_keys[p]);
                }
                if b != i {
                    assert(keys[b] == old_keys[q]);
                }
            }
            self.lemma_entries();
            lemma_ascending_distinct(keys);
            assert(self@ =~= before@.insert(k, value)) by {
                assert forall|q: Seq<char>| self@.contains_key(q) <==> before@.insert(
                    k,
                    value,
                ).contains_key(q) by {
                    if old_keys.contains(q) {
                        let p = old_keys.index_of(q);
                        let m = if p < i { p } else { p + 1 };
                        assert(keys[m] == q);
                    }
                    if keys.contains(q) {
                        let m = keys.index_of(q);
                        if m != i {
                            let p = if m < i { m } else { m - 1 };
                            assert(old_keys[p] == q);
                        }
                    }
                    assert(keys[i as int] == k);
                }
                assert forall|q: Seq<char>| self@.contains_key(q) implies self@[q]
                    == before@.insert(k, value)[q] by {
                    let m = keys.index_of(q);
                    assert(keys[m] == q);
                    if m != i {
                        let p = if m < i { m } else { m - 1 };
                        assert(old_keys[p] == q);
                        assert(self.value_seq()[m] == before.value_seq()[p]);
                        assert(keys[m] != keys[i as int]);
                    }
                }
            }
        }
    }

    pub fn insert(&mut self, key: String, value: V)
        requires
            old(self).wf(),
        ensures
            final(self).wf(),
            final(self)@ == old(self)@.insert(key@, value),
            old(self)@.contains_key(key@) ==> final(self).key_seq() == old(self).key_seq(),
            !old(self)@.contains_key(key@) ==> final(self).key_seq().len()
                == old(self).key_seq().len() + 1,
    {
        proof {
            self.lemma_entries();
        }
        match self.position(key.as_str()) {
            Ok(i) => {
                assert(self.key_seq().contains(self.key_seq()[i as int]));
                self.set_at(i, value);
            },
            Err(i) => {
                self.insert_new(i, key, value);
            },
        }
    }

    /// The index of a key, which is added with a value where it is missing.
    pub fn find_or_insert(&mut self, key: String, value: V) -> (r: usize)
        requires
            old(self).wf(),
        ensures
            final(self).wf(),
            r < final(self).key_seq().len(),
            final(self).key_seq()[r as int] == key@,
            old(self)@.contains_key(key@) ==> *final(self) == *old(self),
            !old(self)@.contains_key(key@) ==> final(self)@ == old(self)@.insert(key@, value)
                && r <= old(self).value_seq().len() && final(self).value_seq() == old(
                self,
            ).value_seq().insert(r as int, value),
    {
        proof {
            self.lemma_entries();
        }
        match self.position(key.as_str()) {
            Ok(i) => {
                assert(self.key_seq().contains(self.key_seq()[i as int]));
                i
            },
            Err(i) => {
                self.insert_new(i, key, value);
                i
            },
        }
    }
}

/// A set of texts, in order.
#[derive(Debug)]
pub struct TextSet {
    items: Vec<String>,
}

impl View for TextSet {
    type V = Set<Seq<char>>;

    closed spec fn view(&self) -> Set<Seq<char>> {
        self.seq().to_set()
    }
}

impl TextSet {
    /// The texts, in order.
    pub closed spec fn seq(&self) -> Seq<Seq<char>> {
        texts(self.items@)
    }

    pub open spec fn wf(&self) -> bool {
        &&& ascending(self.seq())
        &&& self.seq().len() <= usize::MAX
        &&& self@ == self.seq().to_set()
    }

    pub fn new() -> (r: Self)
        ensures
            r.wf(),
            r@ == Set::<Seq<char>>::empty(),
            r.seq() == Seq::<Seq<char>>::empty(),
    {
        let r = TextSet { items: Vec::new() };
        proof {
            assert(r.seq() =~= Seq::<Seq<char>>::empty());
            assert(r@ =~= Set::<Seq<char>>::empty());
        }
        r
    }

    pub fn len(&self) -> (r: usize)
        ensures
            r == self.seq().len(),
    {
        self.items.len()
    }

    pub fn at(&self, i: usize) -> (r: &String)
        requires
            i < self.seq().len(),
        ensures
            r@ == self.seq()[i as int],
    {
        &self.items[i]
    }

    /// The texts, in order.
    pub fn into_vec(self) -> (r: Vec<String>)
        ensures
            texts(r@) == self.seq(),
    {
        self.items
    }

    fn position(&self, key: &str) -> (r: Result<usize, usize>)
        requires
            self.wf(),
        ensures
            match r {
                Ok(i) => i < self.seq().len() && self.seq()[i as int] == key@,
                Err(i) => {
                    &&& i <= self.seq().len()
                    &&& forall|j: int| 0 <= j < i ==> text_lt(#[trigger] self.seq()[j], key@)
                    &&& forall|j: int|
                        i <= j < self.seq().len() ==> text_lt(key@, #[trigger] self.seq()[j])
                },
            },
    {
        let mut low: usize = 0;
        let mut high: usize = self.items.len();
        while low < high
            invariant
                self.wf(),
                low <= high <= self.items@.len(),
                forall|j: int| 0 <= j < low ==> text_lt(#[trigger] self.seq()[j], key@),
                forall|j: int|
                    high <= j < self.seq().len() ==> text_lt(key@, #[trigger] self.seq()[j]),
            decreases high - low,
        {
            let mid: usize = low + (high - low) / 2;
            let ghost keys = self.seq();
            assert(keys[mid as int] == self.items@[mid as int]@);
            if same(self.items[mid].as_str(), key) {
                return Ok(mid);
            }
            if text_before(self.items[mid].as_str(), key) {
                proof {
                    assert forall|j: int| 0 <= j <= mid implies text_lt(
                        #[trigger] keys[j],
                        key@,
                    ) by {
                        if j < mid {
                            lemma_text_lt_transitive(keys[j], keys[mid as int], key@);
                        }
                    }
                }
                low = mid + 1;
            } else {
                proof {
                    lemma_text_lt_total(keys[mid as int], key@);
                    assert forall|j: int| mid <= j < keys.len() implies text_lt(
                        key@,
                        #[trigger] keys[j],
                    ) by {
                        if mid < j {
                            lemma_text_lt_transitive(key@, keys[mid as int], keys[j]);
                        }
                    }
                }
                high = mid;
            }
        }
        Err(low)
    }

    pub fn contains(&self, key: &str) -> (r: bool)
        requires
            self.wf(),
        ensures
            r == self@.contains(key@),
    {
        match self.position(key) {
            Ok(i) => {
                assert(self.seq().contains(self.seq()[i as int]));
                true
            },
            Err(i) => {
                proof {
                    lemma_text_lt_irreflexive(key@);
                }
                false
            },
        }
    }

    /// Adds a text, and says whether it was new.
    pub fn insert(&mut self, key: String) -> (r: bool)
        requires
            old(self).wf(),
        ensures
            final(self).wf(),
            final(self)@ == old(self)@.insert(key@),
            r == !old(self)@.contains(key@),
            final(self).seq().len() == old(self).seq().len() + (if r { 1int } else { 0int }),
    {
        let ghost before = *self;
        match self.position(key.as_str()) {
            Ok(i) => {
                assert(self.seq().contains(self.seq()[i as int]));
                assert(self@ =~= before@.insert(key@));
                false
            },
            Err(i) => {
                let ghost k = key@;
                proof {
                    lemma_text_lt_irreflexive(k);
                }
                self.items.insert(i, key);
                proof {
                    let keys = self.seq();
                    let old_keys = before.seq();
                    assert(keys =~= old_keys.insert(i as int, k));
                    assert(keys.len() == self.items.len());
                    assert forall|a: int, b: int| 0 <= a < b < keys.len() implies text_lt(
                        #[trigger] keys[a],
                        #[trigger] keys[b],
                    ) by {
                        let p = if a < i { a } else { a - 1 };
                        let q = if b < i { b } else { b - 1 };
                        if a != i {
                            assert(keys[a] == old_keys[p]);
                        }
                        if b != i {
                            assert(keys[b] == old_keys[q]);
                        }
                    }
                    assert forall|q: Seq<char>| self@.contains(q) <==> before@.insert(k).contains(
                        q,
                    ) by {
                        if old_keys.contains(q) {
                            let p = old_keys.index_of(q);
                            let m = if p < i { p } else { p + 1 };
                            assert(keys[m] == q);
                        }
                        if keys.contains(q) {
                            let m = keys.index_of(q);
                            if m != i {
                                let p = if m < i { m } else { m - 1 };
                                assert(old_keys[p] == q);
                            }
                        }
                        assert(keys[i as int] == k);
                    }
                    assert(self@ =~= before@.insert(k));
                }
                true
            },
        }
    }
}

} // verus!
