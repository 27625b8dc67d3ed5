//! Exact fractions.

use vstd::prelude::*;

verus! {

/// A fraction of natural numbers.
#[derive(Clone, Copy, Debug, PartialEq, Eq, Structural)]
pub struct Ratio {
    pub num: u128,
    pub den: u128,
}

impl Ratio {
    pub open spec fn wf(&self) -> bool {
        self.den > 0
    }

    /// Whether one fraction is less than another.
    pub open spec fn lt(&self, other: &Ratio) -> bool {
        self.num * other.den < other.num * self.den
    }

    /// Whether one fraction is less than another.
    pub fn is_less(&self, other: &Ratio) -> (r: bool)
        requires
            self.wf(),
            other.wf(),
        ensures
            r == self.lt(other),
    {
        less(self.num, self.den, other.num, other.den)
    }
}

/// Whether `a / b` is less than `c / d`, by their whole parts and then by the
/// reciprocals of what is left.
fn less(a: u128, b: u128, c: u128, d: u128) -> (r: bool)
    requires
        b > 0,
        d > 0,
    ensures
        r == (a * d < c * b),
    decreases b + d,
{
    let q1: u128 = a / b;
    let r1: u128 = a % b;
    let q2: u128 = c / d;
    let r2: u128 = c % d;
    proof {
        lemma_parts(a as int, b as int, c as int, d as int);
    }
    if q1 != q2 {
        return q1 < q2;
    }
    if r2 == 0 {
        assert(r1 * d >= 0) by (nonlinear_arith);
        assert(r2 * b == 0) by (nonlinear_arith)
            requires
                r2 == 0,
        ;
        return false;
    }
    if r1 == 0 {
        assert(r1 * d == 0) by (nonlinear_arith)
            requires
                r1 == 0,
        ;
        assert(r2 * b > 0) by (nonlinear_arith)
            requires
                r2 > 0,
                b > 0,
        ;
        return true;
    }
    proof {
        assert(d * r1 == r1 * d) by (nonlinear_arith);
        assert(b * r2 == r2 * b) by (nonlinear_arith);
    }
    less(d, r2, b, r1)
}

proof fn lemma_parts(a: int, b: int, c: int, d: int)
    requires
        a >= 0,
        b > 0,
        c >= 0,
        d > 0,
    ensures
        a / b < c / d ==> a * d < c * b,
        a / b > c / d ==> !(a * d < c * b),
        a / b == c / d ==> (a * d < c * b <==> (a % b) * d < (c % d) * b),
        a % b < b,
        c % d < d,
        a / b >= 0,
        c / d >= 0,
        a % b >= 0,
        c % d >= 0,
{
    let q1 = a / b;
    let r1 = a % b;
    let q2 = c / d;
    let r2 = c % d;
    vstd::arithmetic::div_mod::lemma_fundamental_div_mod(a, b);
    vstd::arithmetic::div_mod::lemma_fundamental_div_mod(c, d);
    vstd::arithmetic::div_mod::lemma_div_pos_is_pos(a, b);
    vstd::arithmetic::div_mod::lemma_div_pos_is_pos(c, d);
    assert(a == b * q1 + r1);
    assert(c == d * q2 + r2);
    let bd = b * d;
    assert(a * d == q1 * bd + r1 * d) by (nonlinear_arith)
        requires
            a == b * q1 + r1,
            bd == b * d,
    ;
    assert(c * b == q2 * bd + r2 * b) by (nonlinear_arith)
        requires
            c == d * q2 + r2,
            bd == b * d,
    ;
    assert(0 <= r1 * d < bd) by (nonlinear_arith)
        requires
            0 <= r1 < b,
            d > 0,
            bd == b * d,
    ;
    assert(0 <= r2 * b < bd) by (nonlinear_arith)
        requires
            0 <= r2 < d,
            b > 0,
            bd == b * d,
    ;
    if q1 < q2 {
        assert(q1 * bd + bd <= q2 * bd) by (nonlinear_arith)
            requires
                q1 < q2,
                bd > 0,
        ;
    } else if q2 < q1 {
        assert(q2 * bd + bd <= q1 * bd) by (nonlinear_arith)
            requires
                q2 < q1,
                bd > 0,
        ;
    }
}

/// No two fractions are less than each other.
pub proof fn lemma_lt_asymmetric(a: Ratio, b: Ratio)
    requires
        a.lt(&b),
    ensures
        !b.lt(&a),
{
}

/// What is not less than a fraction that is not less than another is not less
/// than that other.
pub proof fn lemma_lt_negatively_transitive(a: Ratio, b: Ratio, c: Ratio)
    requires
        a.wf(),
        b.wf(),
        c.wf(),
        !a.lt(&b),
        !b.lt(&c),
    ensures
        !a.lt(&c),
{
    let (an, ad, bn, bd, cn, cd) = (
        a.num as int,
        a.den as int,
        b.num as int,
        b.den as int,
        c.num as int,
        c.den as int,
    );
    assert(an * bd >= bn * ad);
    assert(bn * cd >= cn * bd);
    // an/ad >= bn/bd >= cn/cd
    assert(an * bd * cd >= bn * ad * cd) by (nonlinear_arith)
        requires
            an * bd >= bn * ad,
            cd > 0,
    ;
    assert(bn * cd * ad >= cn * bd * ad) by (nonlinear_arith)
        requires
            bn * cd >= cn * bd,
            ad > 0,
    ;
    assert(bn * ad * cd == bn * cd * ad) by (nonlinear_arith);
    assert(an * cd >= cn * ad) by (nonlinear_arith)
        requires
            an * bd * cd >= cn * bd * ad,
            bd > 0,
    ;
}

/// The whole number next to `n / d`, the even one where two are equally near.
pub open spec fn nearest(n: nat, d: nat) -> nat {
    let q = n / d;
    let r = n % d;
    if 2 * r > d || (2 * r == d && q % 2 == 1) {
        q + 1
    } else {
        q
    }
}

pub fn round(n: u128, d: u128) -> (r: u128)
    requires
        d > 0,
        n < u128::MAX,
    ensures
        r == nearest(n as nat, d as nat),
{
    let q: u128 = n / d;
    let rest: u128 = n % d;
    let left: u128 = d - rest;
    proof {
        assert(q <= n) by (nonlinear_arith)
            requires
                q == n / d,
                d > 0,
        ;
        assert(q == n as nat / d as nat && rest == n as nat % d as nat);
    }
    if rest > left || (rest == left && q % 2 == 1) {
        q + 1
    } else {
        q
    }
}

} // verus!
