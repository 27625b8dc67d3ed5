//! Laws of numbers of double precision: what can be represented is computed
//! exactly.

use crate::double::{
    in_parts, nearest_double, of_nat, product, quotient, raised, whole, Scaled, LEAST, LIMIT,
};
use crate::ratio::nearest;
use vstd::arithmetic::div_mod::{
    lemma_div_multiples_vanish, lemma_fundamental_div_mod, lemma_fundamental_div_mod_converse,
    lemma_mod_multiples_basic,
};
use vstd::arithmetic::power2::{
    lemma2_to64, lemma_pow2_adds, lemma_pow2_pos, lemma_pow2_unfold, pow2,
};
use vstd::prelude::*;

verus! {

/// Whether a double is a whole number, to the last digit.
pub open spec fn is_exactly(x: Scaled, q: nat) -> bool {
    x.e <= 0 && x.m == q * pow2((-x.e) as nat) && LEAST <= x.m < LIMIT
}

/// Whether `n / d * 2^e` is a whole number.
spec fn comes_to(n: nat, d: nat, e: int, q: nat) -> bool {
    if e <= 0 {
        n == q * d * pow2((-e) as nat)
    } else {
        n * pow2(e as nat) == q * d
    }
}

/// Of the whole numbers next to a quotient, none is nearer.
pub proof fn law_nearest_is_nearest(n: nat, d: nat)
    requires
        d > 0,
    ensures
        2 * (nearest(n, d) * d - n) <= d,
        2 * (n - nearest(n, d) * d) <= d,
        forall|q: nat| n == #[trigger] (q * d) ==> nearest(n, d) == q,
{
    let q = n / d;
    let r = n % d;
    lemma_fundamental_div_mod(n as int, d as int);
    assert(n == d * q + r);
    assert(0 <= r < d);
    assert(q * d == d * q) by (nonlinear_arith);
    assert((q + 1) * d == d * q + d) by (nonlinear_arith);
    assert forall|k: nat| n == #[trigger] (k * d) implies nearest(n, d) == k by {
        lemma_mod_multiples_basic(k as int, d as int);
        lemma_div_multiples_vanish(k as int, d as int);
        assert(k * d == d * k) by (nonlinear_arith);
    }
}

proof fn lemma_comes_to_doubled(n: nat, d: nat, e: int, q: nat)
    requires
        comes_to(n, d, e, q),
    ensures
        comes_to(2 * n, d, e - 1, q),
        comes_to(n, 2 * d, e + 1, q),
{
    lemma2_to64();
    if e <= 0 {
        let p = pow2((-e) as nat);
        lemma_pow2_unfold((1 - e) as nat);
        assert(pow2((1 - e) as nat) == 2 * p);
        assert(2 * n == q * d * (2 * p)) by (nonlinear_arith)
            requires
                n == q * d * p,
        ;
        if e < 0 {
            lemma_pow2_unfold((-e) as nat);
            let h = pow2((-e - 1) as nat);
            assert(p == 2 * h);
            assert(n == q * (2 * d) * h) by (nonlinear_arith)
                requires
                    n == q * d * p,
                    p == 2 * h,
            ;
        } else {
            assert(p == 1);
            assert(n * 2 == q * (2 * d)) by (nonlinear_arith)
                requires
                    n == q * d * 1,
            ;
        }
    } else {
        let p = pow2(e as nat);
        lemma_pow2_unfold((e + 1) as nat);
        lemma_pow2_unfold(e as nat);
        let h = pow2((e - 1) as nat);
        assert(p == 2 * h);
        assert(2 * n * h == q * d) by (nonlinear_arith)
            requires
                n * p == q * d,
                p == 2 * h,
        ;
        assert(n * (2 * p) == q * (2 * d)) by (nonlinear_arith)
            requires
                n * p == q * d,
        ;
        if e == 1 {
            assert(h == 1);
            assert(2 * n * 1 == 2 * n) by (nonlinear_arith);
            assert(q * d * 1 == q * d) by (nonlinear_arith);
        }
    }
}

proof fn lemma_raised_exactly(n: nat, d: nat, e: int, q: nat)
    requires
        0 < n < LIMIT * d,
        0 < d,
        0 < q < LIMIT,
        comes_to(n, d, e, q),
    ensures
        is_exactly(raised(n, d, e), q),
    decreases (if n < LEAST * d { LEAST * d - n } else { 0 }),
{
    lemma2_to64();
    if n < LEAST * d {
        lemma_comes_to_doubled(n, d, e, q);
        lemma_raised_exactly(2 * n, d, e - 1, q);
    } else {
        if e > 0 {
            let p = pow2(e as nat);
            lemma_pow2_unfold(e as nat);
            lemma_pow2_pos((e - 1) as nat);
            assert(p >= 2);
            assert(false) by (nonlinear_arith)
                requires
                    n * p == q * d,
                    p >= 2,
                    n >= LEAST * d,
                    q < LIMIT,
                    d > 0,
                    LIMIT == 2 * LEAST,
            ;
        }
        let p = pow2((-e) as nat);
        let m = q * p;
        assert(n == m * d) by (nonlinear_arith)
            requires
                n == q * d * p,
                m == q * p,
        ;
        law_nearest_is_nearest(n, d);
        assert(nearest(n, d) == m);
        assert(LEAST <= m < LIMIT) by (nonlinear_arith)
            requires
                n == m * d,
                LEAST * d <= n < LIMIT * d,
                d > 0,
        ;
    }
}

proof fn lemma_nearest_exactly(n: nat, d: nat, e: int, q: nat)
    requires
        0 < n,
        0 < d,
        0 < q < LIMIT,
        comes_to(n, d, e, q),
    ensures
        is_exactly(nearest_double(n, d, e), q),
    decreases n - d,
{
    if LIMIT * d <= n {
        lemma_comes_to_doubled(n, d, e, q);
        lemma_nearest_exactly(n, 2 * d, e + 1, q);
    } else {
        lemma_raised_exactly(n, d, e, q);
    }
}

/// A whole number below two to the power of 53 is a double itself.
pub proof fn law_whole_numbers_are_exact(n: nat)
    requires
        0 < n < 0x20_0000_0000_0000,
    ensures
        is_exactly(of_nat(n), n),
        whole(of_nat(n)) == n,
{
    lemma2_to64();
    assert(n * 1 * 1 == n) by (nonlinear_arith);
    lemma_nearest_exactly(n, 1, 0, n);
    lemma_whole_of_exact(of_nat(n), n);
}

pub proof fn lemma_whole_of_exact(x: Scaled, q: nat)
    requires
        is_exactly(x, q),
    ensures
        whole(x) == q,
        forall|unit: nat| #[trigger] in_parts(x, unit) == q * unit,
{
    lemma2_to64();
    let p = pow2((-x.e) as nat);
    lemma_pow2_pos((-x.e) as nat);
    assert forall|unit: nat| #[trigger] in_parts(x, unit) == q * unit by {
        if x.e < 0 {
            assert(x.m * unit == (q * unit) * p) by (nonlinear_arith)
                requires
                    x.m == q * p,
            ;
            law_nearest_is_nearest(x.m * unit, p);
        } else {
            assert(x.m * unit * 1 == q * unit) by (nonlinear_arith)
                requires
                    x.m == q * 1,
            ;
        }
    }
    if x.e < 0 {
        let n = 2 * x.m + p;
        assert(n == q * (2 * p) + p) by (nonlinear_arith)
            requires
                n == 2 * x.m + p,
                x.m == q * p,
        ;
        lemma_fundamental_div_mod_converse(n as int, (2 * p) as int, q as int, p as int);
    } else {
        assert(q * 1 * 1 == q) by (nonlinear_arith);
    }
}

/// A quotient that is a whole number is computed exactly.
pub proof fn law_exact_quotient(a: Scaled, b: Scaled, p: nat, s: nat, q: nat)
    requires
        is_exactly(a, p),
        is_exactly(b, s),
        p == q * s,
        0 < q < 0x20_0000_0000_0000,
        0 < s,
    ensures
        is_exactly(quotient(a, b), q),
{
    lemma2_to64();
    let x = (-a.e) as nat;
    let y = (-b.e) as nat;
    let px = pow2(x);
    let py = pow2(y);
    lemma_pow2_pos(x);
    lemma_pow2_pos(y);
    let e = a.e - b.e;
    if e <= 0 {
        let t = (-e) as nat;
        lemma_pow2_adds(t, y);
        assert(px == pow2(t) * py);
        assert(a.m == q * b.m * pow2(t)) by (nonlinear_arith)
            requires
                a.m == p * px,
                p == q * s,
                b.m == s * py,
                px == pow2(t) * py,
        ;
    } else {
        let t = e as nat;
        lemma_pow2_adds(t, x);
        assert(py == pow2(t) * px);
        assert(a.m * pow2(t) == q * b.m) by (nonlinear_arith)
            requires
                a.m == p * px,
                p == q * s,
                b.m == s * py,
                py == pow2(t) * px,
        ;
    }
    lemma_nearest_exactly(a.m, b.m, e, q);
}

/// A product that has room in a double is computed exactly.
pub proof fn law_exact_product(a: Scaled, b: Scaled, p: nat, s: nat)
    requires
        is_exactly(a, p),
        is_exactly(b, s),
        0 < p * s < 0x20_0000_0000_0000,
    ensures
        is_exactly(product(a, b), p * s),
{
    let x = (-a.e) as nat;
    let y = (-b.e) as nat;
    lemma_pow2_adds(x, y);
    let n = a.m * b.m;
    assert(n == p * s * 1 * (pow2(x) * pow2(y))) by (nonlinear_arith)
        requires
            n == a.m * b.m,
            a.m == p * pow2(x),
            b.m == s * pow2(y),
    ;
    assert(n > 0) by (nonlinear_arith)
        requires
            n == a.m * b.m,
            a.m >= LEAST,
            b.m >= LEAST,
            LEAST > 0,
    ;
    lemma_nearest_exactly(n, 1, a.e + b.e, p * s);
}

// ---------------------------------------------------------------------------
// Rounding
// ---------------------------------------------------------------------------

/// Whether a double is one next to `n / d * 2^e`: it is off by no more than half
/// of its last digit.
pub open spec fn is_next(n: nat, d: nat, e: int, r: Scaled) -> bool {
    if r.e <= e {
        let p = pow2((e - r.e) as nat);
        2 * (r.m * d - n * p) <= d && 2 * (n * p - r.m * d) <= d
    } else {
        let p = pow2((r.e - e) as nat);
        2 * (r.m * (d * p) - n) <= d * p && 2 * (n - r.m * (d * p)) <= d * p
    }
}

proof fn lemma_next_doubled(n: nat, d: nat, e: int, r: Scaled)
    requires
        is_next(2 * n, d, e - 1, r),
    ensures
        is_next(n, d, e, r),
{
    lemma2_to64();
    if r.e <= e - 1 {
        let p = pow2((e - 1 - r.e) as nat);
        let q = pow2((e - r.e) as nat);
        lemma_pow2_unfold((e - r.e) as nat);
        assert(q == 2 * p);
        assert(n * q == 2 * n * p) by (nonlinear_arith)
            requires
                q == 2 * p,
        ;
    } else {
        let p = pow2((r.e - e + 1) as nat);
        let q = pow2((r.e - e) as nat);
        lemma_pow2_unfold((r.e - e + 1) as nat);
        assert(p == 2 * q);
        assert(d * p == 2 * (d * q)) by (nonlinear_arith)
            requires
                p == 2 * q,
        ;
        assert(r.m * (d * p) == 2 * (r.m * (d * q))) by (nonlinear_arith)
            requires
                d * p == 2 * (d * q),
        ;
        if r.e == e {
            assert(q == 1);
            assert(d * q == d) by (nonlinear_arith)
                requires
                    q == 1,
            ;
            assert(n * q == n) by (nonlinear_arith)
                requires
                    q == 1,
            ;
        }
    }
}

proof fn lemma_next_halved(n: nat, d: nat, e: int, r: Scaled)
    requires
        is_next(n, 2 * d, e + 1, r),
    ensures
        is_next(n, d, e, r),
{
    lemma2_to64();
    if r.e <= e + 1 {
        let p = pow2((e + 1 - r.e) as nat);
        assert(r.m * (2 * d) == 2 * (r.m * d)) by (nonlinear_arith);
        if r.e <= e {
            let q = pow2((e - r.e) as nat);
            lemma_pow2_unfold((e + 1 - r.e) as nat);
            assert(p == 2 * q);
            assert(n * p == 2 * (n * q)) by (nonlinear_arith)
                requires
                    p == 2 * q,
            ;
        } else {
            assert(p == 1);
            assert(n * p == n) by (nonlinear_arith)
                requires
                    p == 1,
            ;
            let q = pow2((r.e - e) as nat);
            assert(q == 2);
            assert(d * q == 2 * d) by (nonlinear_arith)
                requires
                    q == 2,
            ;
        }
    } else {
        let p = pow2((r.e - e - 1) as nat);
        let q = pow2((r.e - e) as nat);
        lemma_pow2_unfold((r.e - e) as nat);
        assert(q == 2 * p);
        assert(2 * d * p == d * q) by (nonlinear_arith)
            requires
                q == 2 * p,
        ;
    }
}

proof fn lemma_raised_is_next(n: nat, d: nat, e: int)
    requires
        0 < n < LIMIT * d,
        0 < d,
    ensures
        is_next(n, d, e, raised(n, d, e)),
    decreases (if n < LEAST * d { LEAST * d - n } else { 0 }),
{
    lemma2_to64();
    if n < LEAST * d {
        lemma_raised_is_next(2 * n, d, e - 1);
        lemma_next_doubled(n, d, e, raised(n, d, e));
    } else {
        law_nearest_is_nearest(n, d);
        let m = nearest(n, d);
        assert(n * 1 == n) by (nonlinear_arith);
        if m == LIMIT {
            let p = pow2(1);
            assert(p == 2);
            assert(d * p == 2 * d) by (nonlinear_arith)
                requires
                    p == 2,
            ;
            assert(LEAST * (2 * d) == m * d) by (nonlinear_arith)
                requires
                    m == 2 * LEAST,
            ;
        }
    }
}

/// A quotient that is rounded to a double is off by no more than half of its
/// last digit.
pub proof fn law_doubles_are_next(n: nat, d: nat, e: int)
    requires
        0 < n,
        0 < d,
    ensures
        is_next(n, d, e, nearest_double(n, d, e)),
    decreases n - d,
{
    if LIMIT * d <= n {
        law_doubles_are_next(n, 2 * d, e + 1);
        lemma_next_halved(n, d, e, nearest_double(n, d, e));
    } else {
        lemma_raised_is_next(n, d, e);
    }
}

/// A quotient, and a product, is a double next to the exact one.
pub proof fn law_operations_are_next(a: Scaled, b: Scaled)
    requires
        0 < a.m,
        0 < b.m,
    ensures
        is_next(a.m, b.m, a.e - b.e, quotient(a, b)),
        is_next(a.m * b.m, 1, a.e + b.e, product(a, b)),
{
    assert(a.m * b.m > 0) by (nonlinear_arith)
        requires
            0 < a.m,
            0 < b.m,
    ;
    law_doubles_are_next(a.m, b.m, a.e - b.e);
    law_doubles_are_next(a.m * b.m, 1, a.e + b.e);
}

/// The whole number that stands for a number is one next to it.
pub proof fn law_whole_is_next(x: Scaled)
    ensures
        x.e >= 0 ==> whole(x) == x.m * pow2(x.e as nat),
        x.e < 0 ==> 2 * (whole(x) * pow2((-x.e) as nat) - x.m) <= pow2((-x.e) as nat),
        x.e < 0 ==> 2 * (x.m - whole(x) * pow2((-x.e) as nat)) < pow2((-x.e) as nat),
{
    if x.e < 0 {
        let p = pow2((-x.e) as nat);
        lemma_pow2_pos((-x.e) as nat);
        let n = 2 * x.m + p;
        let q = n / (2 * p);
        lemma_fundamental_div_mod(n as int, (2 * p) as int);
        assert((2 * p) * q == 2 * (q * p)) by (nonlinear_arith);
        assert(n == 2 * (q * p) + n % (2 * p));
        assert(0 <= n % (2 * p) < 2 * p);
    }
}

/// The parts of a unit that stand for a number are the ones next to it.
pub proof fn law_parts_are_next(x: Scaled, unit: nat)
    ensures
        x.e >= 0 ==> in_parts(x, unit) == x.m * unit * pow2(x.e as nat),
        x.e < 0 ==> 2 * (in_parts(x, unit) * pow2((-x.e) as nat) - x.m * unit) <= pow2(
            (-x.e) as nat,
        ),
        x.e < 0 ==> 2 * (x.m * unit - in_parts(x, unit) * pow2((-x.e) as nat)) <= pow2(
            (-x.e) as nat,
        ),
{
    if x.e < 0 {
        lemma_pow2_pos((-x.e) as nat);
        law_nearest_is_nearest(x.m * unit, pow2((-x.e) as nat));
    }
}

} // verus!
