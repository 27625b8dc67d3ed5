//! What is chosen of a sequence.

use vstd::prelude::*;

verus! {

/// Of nothing nothing is chosen.
pub proof fn lemma_filter_start<T>(s: Seq<T>, keep: spec_fn(T) -> bool)
    ensures
        s.take(0).filter(keep) == Seq::<T>::empty(),
{
    reveal(Seq::filter);
    assert(s.take(0).filter(keep) =~= Seq::empty());
}

/// One item more is chosen or is not.
pub proof fn lemma_filter_step<T>(s: Seq<T>, keep: spec_fn(T) -> bool, i: int)
    requires
        0 <= i < s.len(),
    ensures
        s.take(i + 1).filter(keep) == if keep(s[i]) {
            s.take(i).filter(keep).push(s[i])
        } else {
            s.take(i).filter(keep)
        },
{
    reveal(Seq::filter);
    assert(s.take(i + 1).drop_last() =~= s.take(i));
}

/// The chosen items of a prefix are a prefix of the chosen items.
pub proof fn lemma_filter_prefix<T>(s: Seq<T>, keep: spec_fn(T) -> bool, n: int)
    requires
        0 <= n <= s.len(),
    ensures
        s.take(n).filter(keep).len() <= s.filter(keep).len(),
        s.filter(keep).take(s.take(n).filter(keep).len() as int) == s.take(n).filter(keep),
{
    assert(s =~= s.take(n) + s.skip(n));
    Seq::filter_distributes_over_add(s.take(n), s.skip(n), keep);
    assert(s.filter(keep).take(s.take(n).filter(keep).len() as int) =~= s.take(n).filter(keep));
}

/// Choosing everything changes nothing.
pub proof fn lemma_filter_all<T>(s: Seq<T>, keep: spec_fn(T) -> bool)
    requires
        forall|i: int| 0 <= i < s.len() ==> keep(#[trigger] s[i]),
    ensures
        s.filter(keep) == s,
    decreases s.len(),
{
    reveal(Seq::filter);
    if s.len() > 0 {
        lemma_filter_all(s.drop_last(), keep);
        assert(keep(s[s.len() - 1]));
        assert(s.drop_last().push(s.last()) =~= s);
    } else {
        assert(s.filter(keep) =~= s);
    }
}

/// Choosing nothing leaves nothing.
pub proof fn lemma_filter_none<T>(s: Seq<T>, keep: spec_fn(T) -> bool)
    requires
        forall|i: int| 0 <= i < s.len() ==> !keep(#[trigger] s[i]),
    ensures
        s.filter(keep) == Seq::<T>::empty(),
    decreases s.len(),
{
    reveal(Seq::filter);
    if s.len() > 0 {
        lemma_filter_none(s.drop_last(), keep);
        assert(!keep(s[s.len() - 1]));
    }
    assert(s.filter(keep) =~= Seq::<T>::empty());
}

/// Choosing twice is choosing by both.
pub proof fn lemma_filter_twice<T>(
    s: Seq<T>,
    a: spec_fn(T) -> bool,
    b: spec_fn(T) -> bool,
    both: spec_fn(T) -> bool,
)
    requires
        forall|p: T| #[trigger] both(p) == (a(p) && b(p)),
    ensures
        s.filter(a).filter(b) == s.filter(both),
    decreases s.len(),
{
    reveal(Seq::filter);
    if s.len() > 0 {
        let init = s.drop_last();
        lemma_filter_twice(init, a, b, both);
        assert(both(s.last()) == (a(s.last()) && b(s.last())));
        if a(s.last()) {
            assert(s.filter(a).drop_last() =~= init.filter(a));
        }
    } else {
        assert(s.filter(a) =~= s);
    }
}

/// Choosing among what is made of items is making of the chosen items.
pub proof fn lemma_filter_made<T, U>(
    s: Seq<T>,
    make: spec_fn(T) -> U,
    keep: spec_fn(U) -> bool,
    of: spec_fn(T) -> bool,
)
    requires
        forall|i: int| 0 <= i < s.len() ==> keep(make(#[trigger] s[i])) == of(s[i]),
    ensures
        s.map_values(make).filter(keep) == s.filter(of).map_values(make),
    decreases s.len(),
{
    reveal(Seq::filter);
    if s.len() > 0 {
        let init = s.drop_last();
        assert forall|i: int| 0 <= i < init.len() implies keep(make(#[trigger] init[i])) == of(
            init[i],
        ) by {
            assert(init[i] == s[i]);
        }
        lemma_filter_made(init, make, keep, of);
        assert(s.map_values(make).drop_last() =~= init.map_values(make));
        assert(keep(make(s[s.len() - 1])) == of(s[s.len() - 1]));
        assert(s.filter(of).map_values(make) =~= s.map_values(make).filter(keep));
    } else {
        assert(s.map_values(make).filter(keep) =~= s.filter(of).map_values(make));
    }
}

/// What is chosen and what is not are all.
pub proof fn lemma_filter_split<T>(
    s: Seq<T>,
    keep: spec_fn(T) -> bool,
    rest: spec_fn(T) -> bool,
)
    requires
        forall|x: T| #[trigger] rest(x) == !keep(x),
    ensures
        s.filter(keep).len() + s.filter(rest).len() == s.len(),
    decreases s.len(),
{
    reveal(Seq::filter);
    if s.len() > 0 {
        lemma_filter_split(s.drop_last(), keep, rest);
        assert(rest(s.last()) == !keep(s.last()));
    }
}

/// A filter keeps the items that pass, and no other.
pub proof fn lemma_filter_keeps<T>(all: Seq<T>, keep: spec_fn(T) -> bool, x: T)
    ensures
        all.filter(keep).contains(x) <==> all.contains(x) && keep(x),
{
    if all.contains(x) && keep(x) {
        let i = choose|i: int| 0 <= i < all.len() && all[i] == x;
        all.lemma_filter_contains(keep, i);
    }
    if all.filter(keep).contains(x) {
        let k = choose|k: int| 0 <= k < all.filter(keep).len() && all.filter(keep)[k] == x;
        all.lemma_filter_pred(keep, k);
        all.lemma_filter_contains_rev(keep, x);
    }
}

} // verus!
