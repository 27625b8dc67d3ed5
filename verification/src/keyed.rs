//! Lists whose items have a text each as their key.

use crate::filter::{lemma_filter_split, lemma_filter_start, lemma_filter_step};
use crate::text::texts;
use crate::textmap::{
    lemma_ascending_unique, lemma_filter_ascending, lemma_sorted_set, lemma_sorted_set_unique,
    sorted_set, TextMap,
};
use vstd::prelude::*;

verus! {

/// Where a key stands last.
pub open spec fn last_at(keys: Seq<Seq<char>>, key: Seq<char>) -> Option<int>
    decreases keys.len(),
{
    if keys.len() == 0 {
        None
    } else if keys.last() == key {
        Some(keys.len() - 1)
    } else {
        last_at(keys.drop_last(), key)
    }
}

/// Where a key stands, in order.
pub open spec fn places(keys: Seq<Seq<char>>, key: Seq<char>) -> Seq<int>
    decreases keys.len(),
{
    if keys.len() == 0 {
        Seq::empty()
    } else if keys.last() == key {
        places(keys.drop_last(), key).push(keys.len() - 1)
    } else {
        places(keys.drop_last(), key)
    }
}

/// Machine numbers as numbers of specifications.
pub open spec fn as_ints(v: Seq<usize>) -> Seq<int> {
    v.map_values(|i: usize| i as int)
}

pub proof fn lemma_last_at(keys: Seq<Seq<char>>, key: Seq<char>)
    ensures
        match last_at(keys, key) {
            Some(i) => 0 <= i < keys.len() && keys[i] == key,
            None => true,
        },
        last_at(keys, key) is Some <==> keys.contains(key),
    decreases keys.len(),
{
    if keys.len() > 0 {
        let init = keys.drop_last();
        lemma_last_at(init, key);
        if keys.contains(key) && keys.last() != key {
            let i = keys.index_of(key);
            assert(init[i] == key);
            assert(init.contains(key));
        }
        if last_at(keys, key) is Some {
            let i = last_at(keys, key)->0;
            assert(keys[i] == key);
        }
    }
}

pub proof fn lemma_places(keys: Seq<Seq<char>>, key: Seq<char>)
    ensures
        forall|k: int|
            0 <= k < places(keys, key).len() ==> 0 <= #[trigger] places(keys, key)[k] < keys.len()
                && keys[places(keys, key)[k]] == key,
        places(keys, key).len() <= keys.len(),
    decreases keys.len(),
{
    if keys.len() > 0 {
        lemma_places(keys.drop_last(), key);
    }
}

/// The places before an index are the first ones.
pub proof fn lemma_places_take(keys: Seq<Seq<char>>, key: Seq<char>, n: int)
    requires
        0 <= n <= keys.len(),
    ensures
        places(keys.take(n), key).len() <= places(keys, key).len(),
        places(keys.take(n), key) == places(keys, key).take(places(keys.take(n), key).len() as int),
    decreases keys.len(),
{
    if n < keys.len() {
        let init = keys.drop_last();
        assert(init.take(n) =~= keys.take(n));
        lemma_places_take(init, key, n);
        if keys.last() == key {
            let a = places(init, key);
            let m = places(keys.take(n), key).len() as int;
            assert(a.push(keys.len() - 1).take(m) =~= a.take(m));
        }
    } else {
        assert(keys.take(n) =~= keys);
        assert(places(keys, key).take(places(keys, key).len() as int) =~= places(keys, key));
    }
}

/// Whether a map holds where each key stands last.
pub open spec fn holds_last(m: &TextMap<usize>, keys: Seq<Seq<char>>) -> bool {
    &&& m.wf()
    &&& m.key_seq() == sorted_set(keys)
    &&& forall|k: Seq<char>| #[trigger] m@.contains_key(k) <==> keys.contains(k)
    &&& forall|k: Seq<char>| #[trigger] m@.contains_key(k) ==> last_at(keys, k) == Some(m@[k] as int)
}

/// Where each key stands last.
pub fn index_last(keys: &Vec<String>) -> (r: TextMap<usize>)
    ensures
        holds_last(&r, texts(keys@)),
{
    let mut r: TextMap<usize> = TextMap::new();
    let ghost all = texts(keys@);
    let mut i: usize = 0;
    proof {
        assert(all.take(0) =~= Seq::empty());
    }
    while i < keys.len()
        invariant
            i <= keys@.len(),
            all == texts(keys@),
            holds_last(&r, all.take(i as int)),
        decreases keys@.len() - i,
    {
        let ghost before = all.take(i as int);
        let ghost after = all.take(i as int + 1);
        let ghost old_map = r@;
        r.insert(keys[i].clone(), i);
        proof {
            assert(after.drop_last() =~= before);
            r.lemma_entries();
            assert forall|k: Seq<char>| r.key_seq().contains(k) <==> after.contains(k) by {
                lemma_last_at(after, k);
                lemma_last_at(before, k);
                assert(r@.contains_key(k) <==> old_map.contains_key(k) || k == all[i as int]);
            }
            lemma_sorted_set_unique(r.key_seq(), after);
            lemma_sorted_set(after);
        }
        i = i + 1;
    }
    assert(all.take(i as int) =~= all);
    r
}

/// The keys of one list that another has not, in order.
pub open spec fn only_in(keys: Seq<Seq<char>>, others: Seq<Seq<char>>) -> Seq<Seq<char>> {
    sorted_set(keys).filter(|k: Seq<char>| !others.contains(k))
}

/// The keys of two lists, in order.
pub open spec fn in_both(keys: Seq<Seq<char>>, others: Seq<Seq<char>>) -> Seq<Seq<char>> {
    sorted_set(keys).filter(|k: Seq<char>| others.contains(k))
}

/// Every key of a list is in another or is not, and what both have is the same
/// from either side.
pub proof fn lemma_parts_of_keys(keys: Seq<Seq<char>>, others: Seq<Seq<char>>)
    ensures
        only_in(keys, others).len() + in_both(keys, others).len() == sorted_set(keys).len(),
        in_both(keys, others) == in_both(others, keys),
{
    let there = |k: Seq<char>| others.contains(k);
    let back = |k: Seq<char>| keys.contains(k);
    lemma_filter_split(sorted_set(keys), there, |k: Seq<char>| !others.contains(k));
    lemma_sorted_set(keys);
    lemma_sorted_set(others);
    lemma_filter_ascending(sorted_set(keys), there);
    lemma_filter_ascending(sorted_set(others), back);
    let a = in_both(keys, others);
    let b = in_both(others, keys);
    assert forall|k: Seq<char>| a.contains(k) <==> b.contains(k) by {
        lemma_chosen(sorted_set(keys), there, k);
        lemma_chosen(sorted_set(others), back, k);
    }
    lemma_ascending_unique(a, b);
}

proof fn lemma_chosen(s: Seq<Seq<char>>, keep: spec_fn(Seq<char>) -> bool, k: Seq<char>)
    ensures
        s.filter(keep).contains(k) <==> s.contains(k) && keep(k),
{
    if s.filter(keep).contains(k) {
        let i = s.filter(keep).index_of(k);
        s.lemma_filter_pred(keep, i);
        s.lemma_filter_contains_rev(keep, k);
    }
    if s.contains(k) && keep(k) {
        s.lemma_filter_contains(keep, s.index_of(k));
    }
}

/// The items of a list by their keys.
pub open spec fn items_at<A>(items: Seq<A>, keys: Seq<Seq<char>>, some: Seq<Seq<char>>) -> Seq<A> {
    some.map_values(|k: Seq<char>| items[last_at(keys, k)->0])
}

/// Where the keys stand that one list has and another has not, in the order of
/// the keys.
pub(crate) fn places_only_in(
    m: &TextMap<usize>,
    other: &TextMap<usize>,
    Ghost(keys): Ghost<Seq<Seq<char>>>,
    Ghost(others): Ghost<Seq<Seq<char>>>,
) -> (r: Vec<usize>)
    requires
        holds_last(m, keys),
        holds_last(other, others),
    ensures
        r@.len() == only_in(keys, others).len(),
        forall|i: int|
            0 <= i < r@.len() ==> last_at(keys, only_in(keys, others)[i]) == Some(
                #[trigger] r@[i] as int,
            ) && r@[i] < keys.len(),
        only_in(keys, others).len() + in_both(keys, others).len() == sorted_set(keys).len(),
{
    let ghost keep = |k: Seq<char>| !others.contains(k);
    let ghost rest = |k: Seq<char>| others.contains(k);
    let ghost all = sorted_set(keys);
    let mut r: Vec<usize> = Vec::new();
    let mut i: usize = 0;
    proof {
        lemma_filter_start(all, keep);
        lemma_filter_start(all, rest);
    }
    while i < m.len()
        invariant
            holds_last(m, keys),
            holds_last(other, others),
            all == sorted_set(keys),
            i <= all.len(),
            keep == (|k: Seq<char>| !others.contains(k)),
            rest == (|k: Seq<char>| others.contains(k)),
            r@.len() == all.take(i as int).filter(keep).len(),
            forall|j: int|
                0 <= j < r@.len() ==> last_at(keys, all.take(i as int).filter(keep)[j]) == Some(
                    #[trigger] r@[j] as int,
                ) && r@[j] < keys.len(),
            all.take(i as int).filter(keep).len() + all.take(i as int).filter(rest).len() == i,
        decreases all.len() - i,
    {
        let ghost before = all.take(i as int);
        let ghost after = all.take(i as int + 1);
        proof {
            lemma_filter_step(all, keep, i as int);
            lemma_filter_step(all, rest, i as int);
            m.lemma_entries();
            lemma_last_at(keys, all[i as int]);
        }
        if !other.contains_key(m.key_at(i).as_str()) {
            let at: usize = *m.value_at(i);
            assert(m@[all[i as int]] == at);
            assert(m@.contains_key(all[i as int]));
            r.push(at);
            assert(after.filter(keep) =~= before.filter(keep).push(all[i as int]));
        }
        i = i + 1;
    }
    proof {
        assert(all.take(i as int) =~= all);
    }
    r
}

} // verus!
