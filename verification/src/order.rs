//! Sorting by an order that the items carry.

use crate::text::{
    lemma_text_lt_asymmetric, lemma_text_lt_irreflexive, lemma_text_lt_total,
    lemma_text_lt_transitive, same, text_before, text_lt,
};
use vstd::prelude::*;

verus! {

/// Items that have an order.
pub trait Ranked: Sized {
    /// Whether the item has a place in the order.
    spec fn is_ranked(&self) -> bool;

    /// Whether `self` stands strictly before `other`.
    spec fn before(&self, other: &Self) -> bool;

    /// No two items stand before each other.
    proof fn lemma_asymmetric(a: &Self, b: &Self)
        requires
            a.is_ranked(),
            b.is_ranked(),
            a.before(b),
        ensures
            !b.before(a),
    ;

    /// What does not stand before an item does not stand before what that
    /// item does not stand before.
    proof fn lemma_negatively_transitive(a: &Self, b: &Self, c: &Self)
        requires
            a.is_ranked(),
            b.is_ranked(),
            c.is_ranked(),
            !b.before(a),
            !c.before(b),
        ensures
            !c.before(a),
    ;

    fn is_before(&self, other: &Self) -> (r: bool)
        requires
            self.is_ranked(),
            other.is_ranked(),
        ensures
            r == self.before(other),
    ;
}

/// Whether all items have a place in the order.
pub open spec fn all_ranked<T: Ranked>(s: Seq<T>) -> bool {
    forall|i: int| 0 <= i < s.len() ==> (#[trigger] s[i]).is_ranked()
}

/// Whether a sequence is in order.
pub open spec fn in_order<T: Ranked>(s: Seq<T>) -> bool {
    forall|i: int, j: int|
        #![trigger s[i], s[j]]
        0 <= i < j < s.len() ==> !s[j].before(&s[i])
}

/// Whether a sequence is in reverse order.
spec fn in_reverse<T: Ranked>(s: Seq<T>) -> bool {
    forall|i: int, j: int|
        #![trigger s[i], s[j]]
        0 <= i < j < s.len() ==> !s[i].before(&s[j])
}

/// Whether no item of `high` stands before an item of `low`.
spec fn above<T: Ranked>(low: Seq<T>, high: Seq<T>) -> bool {
    forall|i: int, j: int|
        #![trigger low[i], high[j]]
        0 <= i < low.len() && 0 <= j < high.len() ==> !high[j].before(&low[i])
}

proof fn lemma_last_split<T>(s: Seq<T>)
    requires
        s.len() > 0,
    ensures
        s.to_multiset() == s.drop_last().to_multiset().insert(s.last()),
{
    broadcast use vstd::seq_lib::group_to_multiset_ensures;

    assert(s =~= s.drop_last().push(s.last()));
}

/// Moves the last item of `from` to the end of `to`.
fn move_last<T>(from: &mut Vec<T>, to: &mut Vec<T>)
    requires
        old(from)@.len() > 0,
    ensures
        final(from)@ == old(from)@.drop_last(),
        final(to)@ == old(to)@.push(old(from)@.last()),
        final(from)@.to_multiset().add(final(to)@.to_multiset()) == old(from)@.to_multiset().add(
            old(to)@.to_multiset(),
        ),
{
    let ghost f = from@;
    let ghost t = to@;
    let item = from.pop();
    match item {
        Some(x) => {
            to.push(x);
            proof {
                lemma_last_split(f);
                assert(f.drop_last() =~= from@);
                lemma_last_split(to@);
                assert(to@.drop_last() =~= t);
                assert(from@.to_multiset().add(to@.to_multiset()) =~= f.to_multiset().add(
                    t.to_multiset(),
                ));
            }
        },
        None => {},
    }
}

proof fn lemma_ranked_moved<T: Ranked>(from: Seq<T>, to: Seq<T>)
    requires
        from.len() > 0,
        all_ranked(from),
        all_ranked(to),
    ensures
        all_ranked(from.drop_last()),
        all_ranked(to.push(from.last())),
{
    assert(from[from.len() - 1].is_ranked());
    assert forall|i: int| 0 <= i < from.drop_last().len() implies (
    #[trigger] from.drop_last()[i]).is_ranked() by {
        assert(from.drop_last()[i] == from[i]);
    }
}

/// The items of `v`, the last first.
fn reversed<T: Ranked>(v: Vec<T>) -> (r: Vec<T>)
    requires
        in_reverse(v@),
        all_ranked(v@),
    ensures
        in_order(r@),
        all_ranked(r@),
        r@.to_multiset() == v@.to_multiset(),
{
    let mut v = v;
    let mut r: Vec<T> = Vec::new();
    let ghost all = v@;
    proof {
        assert(r@ =~= Seq::<T>::empty());
        assert(v@.to_multiset().add(r@.to_multiset()) =~= all.to_multiset()) by {
            broadcast use vstd::seq_lib::group_to_multiset_ensures;

        }
    }
    while v.len() > 0
        invariant
            in_reverse(v@),
            in_order(r@),
            all_ranked(v@),
            all_ranked(r@),
            above(r@, v@),
            v@.to_multiset().add(r@.to_multiset()) == all.to_multiset(),
        decreases v.len(),
    {
        let ghost f = v@;
        let ghost t = r@;
        move_last(&mut v, &mut r);
        proof {
            lemma_ranked_moved(f, t);
            assert forall|i: int, j: int|
#![trigger r@[j], r@[i]]
0 <= i < j < r@.len() implies !r@[j].before(&r@[i]) by {
                if j == t.len() {
                    assert(r@[j] == f[f.len() - 1]);
                    assert(r@[i] == t[i]);
                }
            }
            assert forall|i: int, j: int|
#![trigger v@[j], r@[i]]
0 <= i < r@.len() && 0 <= j < v@.len() implies !v@[j].before(&r@[i]) by {
                assert(v@[j] == f[j]);
                if i == t.len() {
                    assert(r@[i] == f[f.len() - 1]);
                } else {
                    assert(r@[i] == t[i]);
                }
            }
        }
    }
    assert(r@.to_multiset() =~= all.to_multiset()) by {
        broadcast use vstd::seq_lib::group_to_multiset_ensures;

        assert(v@ =~= Seq::<T>::empty());
    }
    r
}

/// The items of two vectors in order, as one vector in order.
fn merge<T: Ranked>(a: Vec<T>, b: Vec<T>) -> (r: Vec<T>)
    requires
        in_order(a@),
        in_order(b@),
        all_ranked(a@),
        all_ranked(b@),
    ensures
        in_order(r@),
        all_ranked(r@),
        r@.to_multiset() == a@.to_multiset().add(b@.to_multiset()),
{
    let mut a = a;
    let mut b = b;
    let mut out: Vec<T> = Vec::new();
    let ghost all = a@.to_multiset().add(b@.to_multiset());
    proof {
        broadcast use vstd::seq_lib::group_to_multiset_ensures;

        assert(out@ =~= Seq::<T>::empty());
        assert(a@.to_multiset().add(b@.to_multiset()).add(out@.to_multiset()) =~= all);
    }
    while a.len() > 0 || b.len() > 0
        invariant
            in_order(a@),
            in_order(b@),
            in_reverse(out@),
            all_ranked(a@),
            all_ranked(b@),
            all_ranked(out@),
            above(a@, out@),
            above(b@, out@),
            a@.to_multiset().add(b@.to_multiset()).add(out@.to_multiset()) == all,
        decreases a.len() + b.len(),
    {
        let take_a = if b.len() == 0 {
            true
        } else if a.len() == 0 {
            false
        } else {
            b[b.len() - 1].is_before(&a[a.len() - 1])
        };
        let ghost a0 = a@;
        let ghost b0 = b@;
        let ghost o0 = out@;
        if take_a {
            proof {
                // The last of `a` stands before no item that is left.
                let x = a0.last();
                assert forall|i: int| 0 <= i < b0.len() implies !x.before(&#[trigger] b0[i]) by {
                    T::lemma_asymmetric(&b0[b0.len() - 1], &x);
                    if i < b0.len() - 1 {
                        T::lemma_negatively_transitive(&b0[i], &b0[b0.len() - 1], &x);
                    }
                }
            }
            move_last(&mut a, &mut out);
            proof {
                lemma_ranked_moved(a0, o0);
                assert forall|i: int, j: int|
#![trigger out@[i], out@[j]]
0 <= i < j < out@.len() implies !out@[i].before(&out@[j]) by {
                    assert(out@[i] == o0[i]);
                    if j == o0.len() {
                        assert(out@[j] == a0[a0.len() - 1]);
                    }
                }
                assert(above(a@, out@)) by {
                    assert forall|i: int, j: int|
#![trigger out@[j], a@[i]]
0 <= i < a@.len() && 0 <= j < out@.len() implies !out@[j].before(&a@[i]) by {
                        assert(a@[i] == a0[i]);
                        if j == o0.len() {
                            assert(out@[j] == a0[a0.len() - 1]);
                        } else {
                            assert(out@[j] == o0[j]);
                        }
                    }
                }
                assert(a@.to_multiset().add(b@.to_multiset()).add(out@.to_multiset())
                    =~= a@.to_multiset().add(out@.to_multiset()).add(b@.to_multiset()));
                assert(a0.to_multiset().add(b0.to_multiset()).add(o0.to_multiset())
                    =~= a0.to_multiset().add(o0.to_multiset()).add(b0.to_multiset()));
            }
        } else {
            proof {
                let x = b0.last();
                assert forall|i: int| 0 <= i < a0.len() implies !x.before(&#[trigger] a0[i]) by {
                    if i < a0.len() - 1 {
                        T::lemma_negatively_transitive(&a0[i], &a0[a0.len() - 1], &x);
                    }
                }
            }
            move_last(&mut b, &mut out);
            proof {
                lemma_ranked_moved(b0, o0);
                assert forall|i: int, j: int|
#![trigger out@[i], out@[j]]
0 <= i < j < out@.len() implies !out@[i].before(&out@[j]) by {
                    assert(out@[i] == o0[i]);
                    if j == o0.len() {
                        assert(out@[j] == b0[b0.len() - 1]);
                    }
                }
                assert(above(b@, out@)) by {
                    assert forall|i: int, j: int|
#![trigger out@[j], b@[i]]
0 <= i < b@.len() && 0 <= j < out@.len() implies !out@[j].before(&b@[i]) by {
                        assert(b@[i] == b0[i]);
                        if j == o0.len() {
                            assert(out@[j] == b0[b0.len() - 1]);
                        } else {
                            assert(out@[j] == o0[j]);
                        }
                    }
                }
                assert(a@.to_multiset().add(b@.to_multiset()).add(out@.to_multiset())
                    =~= b@.to_multiset().add(out@.to_multiset()).add(a@.to_multiset()));
                assert(a0.to_multiset().add(b0.to_multiset()).add(o0.to_multiset())
                    =~= b0.to_multiset().add(o0.to_multiset()).add(a0.to_multiset()));
            }
        }
    }
    proof {
        broadcast use vstd::seq_lib::group_to_multiset_ensures;

        assert(a@ =~= Seq::<T>::empty());
        assert(b@ =~= Seq::<T>::empty());
        assert(out@.to_multiset() =~= all);
    }
    reversed(out)
}

/// The items in order.
pub fn sort<T: Ranked>(v: Vec<T>) -> (r: Vec<T>)
    requires
        all_ranked(v@),
    ensures
        in_order(r@),
        all_ranked(r@),
        r@.to_multiset() == v@.to_multiset(),
    decreases v.len(),
{
    if v.len() <= 1 {
        return v;
    }
    let mut v = v;
    let half: usize = v.len() / 2;
    let ghost all = v@;
    let upper = v.split_off(half);
    proof {
        broadcast use vstd::seq_lib::group_to_multiset_ensures;
        vstd::seq_lib::lemma_multiset_commutative(v@, upper@);
        assert(v@ + upper@ =~= all);
        assert forall|i: int| 0 <= i < v@.len() implies (#[trigger] v@[i]).is_ranked() by {
            assert(v@[i] == all[i]);
        }
        assert forall|i: int| 0 <= i < upper@.len() implies (#[trigger] upper@[i]).is_ranked() by {
            assert(upper@[i] == all[half + i]);
        }
    }
    let low = sort(v);
    let high = sort(upper);
    merge(low, high)
}

impl Ranked for String {
    open spec fn is_ranked(&self) -> bool {
        true
    }

    open spec fn before(&self, other: &Self) -> bool {
        text_lt(self@, other@)
    }

    proof fn lemma_asymmetric(a: &Self, b: &Self) {
        lemma_text_lt_asymmetric(a@, b@);
    }

    proof fn lemma_negatively_transitive(a: &Self, b: &Self, c: &Self) {
        lemma_text_lt_total(a@, b@);
        lemma_text_lt_total(b@, c@);
        if text_lt(c@, a@) {
            if text_lt(a@, b@) {
                lemma_text_lt_transitive(c@, a@, b@);
            }
        }
    }

    fn is_before(&self, other: &Self) -> (r: bool) {
        text_before(self.as_str(), other.as_str())
    }
}

// ---------------------------------------------------------------------------
// Pairs of texts
// ---------------------------------------------------------------------------

/// Whether the first of two pairs comes before the second: its first text
/// does, or the first texts are the same and its second does.
pub open spec fn pair_lt(a: (Seq<char>, Seq<char>), b: (Seq<char>, Seq<char>)) -> bool {
    text_lt(a.0, b.0) || (a.0 == b.0 && text_lt(a.1, b.1))
}

pub proof fn lemma_pair_asymmetric(a: (Seq<char>, Seq<char>), b: (Seq<char>, Seq<char>))
    requires
        pair_lt(a, b),
    ensures
        !pair_lt(b, a),
{
    if text_lt(a.0, b.0) {
        lemma_text_lt_asymmetric(a.0, b.0);
        lemma_text_lt_irreflexive(a.0);
    } else {
        lemma_text_lt_asymmetric(a.1, b.1);
    }
}

pub proof fn lemma_pair_negatively_transitive(
    a: (Seq<char>, Seq<char>),
    b: (Seq<char>, Seq<char>),
    c: (Seq<char>, Seq<char>),
)
    requires
        !pair_lt(b, a),
        !pair_lt(c, b),
    ensures
        !pair_lt(c, a),
{
    lemma_text_lt_total(a.0, b.0);
    lemma_text_lt_total(b.0, c.0);
    lemma_text_lt_total(a.1, b.1);
    lemma_text_lt_total(b.1, c.1);
    if text_lt(a.0, b.0) {
        if text_lt(b.0, c.0) {
            lemma_text_lt_transitive(a.0, b.0, c.0);
        }
        lemma_text_lt_asymmetric(a.0, c.0);
        lemma_text_lt_irreflexive(a.0);
    } else if text_lt(b.0, c.0) {
        lemma_text_lt_asymmetric(a.0, c.0);
        lemma_text_lt_irreflexive(a.0);
    } else {
        lemma_text_lt_irreflexive(a.0);
        if text_lt(a.1, b.1) {
            if text_lt(b.1, c.1) {
                lemma_text_lt_transitive(a.1, b.1, c.1);
            }
            lemma_text_lt_asymmetric(a.1, c.1);
        } else if text_lt(b.1, c.1) {
            lemma_text_lt_asymmetric(a.1, c.1);
        } else {
            lemma_text_lt_irreflexive(a.1);
        }
    }
}

/// Whether the pair of the first two texts comes before that of the others.
pub fn pair_before(a: &str, b: &str, c: &str, d: &str) -> (r: bool)
    ensures
        r == pair_lt((a@, b@), (c@, d@)),
{
    proof {
        lemma_text_lt_irreflexive(a@);
    }
    text_before(a, c) || (same(a, c) && text_before(b, d))
}

} // verus!
