//! Numbers of double precision, as whole numbers scaled by powers of two.
//!
//! Rates and estimates are computed in double precision. Each operation gives
//! the double next to the exact result, the one with the even mantissa where
//! two are equally near.

use crate::ratio::{nearest, round};
use vstd::arithmetic::power2::{
    lemma2_to64, lemma2_to64_rest, lemma_pow2_adds, lemma_pow2_pos,
    lemma_pow2_strictly_increases, lemma_pow2_unfold, pow2,
};
use vstd::prelude::*;

verus! {

/// The least mantissa.
pub const LEAST: u64 = 0x10_0000_0000_0000;

/// What all mantissas are less than.
pub const LIMIT: u64 = 0x20_0000_0000_0000;

/// A positive number `m * 2^e`.
#[derive(Clone, Copy, Debug, PartialEq, Eq, Structural)]
pub struct Double {
    pub m: u64,
    pub e: i64,
}

/// A positive number as a value of specifications.
pub struct Scaled {
    pub m: nat,
    pub e: int,
}

impl Double {
    pub open spec fn wf(&self) -> bool {
        LEAST <= self.m < LIMIT
    }

    pub open spec fn view(&self) -> Scaled {
        Scaled { m: self.m as nat, e: self.e as int }
    }
}

/// The double next to `n / d * 2^e`, for a quotient with as many digits before
/// the point as a mantissa has.
pub open spec fn settled(n: nat, d: nat, e: int) -> Scaled {
    if nearest(n, d) == LIMIT {
        Scaled { m: LEAST as nat, e: e + 1 }
    } else {
        Scaled { m: nearest(n, d), e }
    }
}

/// The double next to `n / d * 2^e`, for a quotient that may be too small.
pub open spec fn raised(n: nat, d: nat, e: int) -> Scaled
    decreases (if n < LEAST * d { LEAST * d - n } else { 0 }),
{
    if 0 < n < LEAST * d {
        raised(2 * n, d, e - 1)
    } else {
        settled(n, d, e)
    }
}

/// The double next to `n / d * 2^e`.
pub open spec fn nearest_double(n: nat, d: nat, e: int) -> Scaled
    decreases n - d,
{
    if 0 < d && LIMIT * d <= n {
        nearest_double(n, 2 * d, e + 1)
    } else {
        raised(n, d, e)
    }
}

/// The double next to a whole number.
pub open spec fn of_nat(n: nat) -> Scaled {
    nearest_double(n, 1, 0)
}

/// The double next to a quotient.
pub open spec fn quotient(a: Scaled, b: Scaled) -> Scaled {
    nearest_double(a.m, b.m, a.e - b.e)
}

/// The double next to a product.
pub open spec fn product(a: Scaled, b: Scaled) -> Scaled {
    nearest_double(a.m * b.m, 1, a.e + b.e)
}

/// The whole number next to a number, the greater where two are equally near.
pub open spec fn whole(x: Scaled) -> nat {
    if x.e >= 0 {
        x.m * pow2(x.e as nat)
    } else {
        (2 * x.m + pow2((-x.e) as nat)) / (2 * pow2((-x.e) as nat))
    }
}

/// The number of doublings that take a positive number to a limit is no more
/// than the limit's exponent.
proof fn lemma_doublings(n0: nat, n: nat, k: nat, limit: nat)
    requires
        n0 > 0,
        n == n0 * pow2(k),
        n < pow2(limit),
    ensures
        k < limit,
{
    if k >= limit {
        if k > limit {
            lemma_pow2_strictly_increases(limit, k);
        }
        assert(n0 * pow2(k) >= pow2(k)) by (nonlinear_arith)
            requires
                n0 > 0,
        ;
    }
}

proof fn lemma_double_step(n0: nat, k: nat)
    ensures
        2 * (n0 * pow2(k)) == n0 * pow2(k + 1),
{
    lemma_pow2_unfold(k + 1);
    assert(2 * (n0 * pow2(k)) == n0 * (2 * pow2(k))) by (nonlinear_arith);
}

/// The double next to `n / d * 2^e`.
fn find_nearest(n: u128, d: u128, e: i64) -> (r: Double)
    requires
        0 < n < 0x400_0000_0000_0000_0000_0000_0000,
        0 < d < 0x40_0000_0000_0000,
        -1_000_000 <= e <= 1_000_000,
    ensures
        r.wf(),
        r@ == nearest_double(n as nat, d as nat, e as int),
        e - 128 <= r.e <= e + 128,
{
    let least: u128 = LEAST as u128;
    let limit: u128 = LIMIT as u128;
    let ghost goal = nearest_double(n as nat, d as nat, e as int);
    let most: u128 = n / limit;
    let mut low: u128 = d;
    let mut up: i64 = 0;
    proof {
        lemma2_to64();
        lemma2_to64_rest();
        assert(d * pow2(0) == d && n * pow2(0) == n) by (nonlinear_arith)
            requires
                pow2(0) == 1,
        ;
        assert(most < 0x20_0000_0000_0000) by (nonlinear_arith)
            requires
                most == n / limit,
                n < 0x400_0000_0000_0000_0000_0000_0000,
                limit == 0x20_0000_0000_0000,
        ;
    }
    while low <= most
        invariant
            most == n / limit,
            most < 0x20_0000_0000_0000,
            0 < d <= low,
            0 <= up <= 60,
            limit == LIMIT,
            low == d * pow2(up as nat),
            low < 0x40_0000_0000_0000,
            goal == nearest_double(n as nat, low as nat, e + up),
        decreases n - low,
    {
        proof {
            assert(limit * low <= n) by (nonlinear_arith)
                requires
                    low <= n / limit,
                    limit > 0,
            ;
            assert(low <= n) by (nonlinear_arith)
                requires
                    limit * low <= n,
                    limit > 0,
            ;
            lemma_double_step(d as nat, up as nat);
            lemma2_to64();
            lemma2_to64_rest();
            lemma_doublings(d as nat, low as nat, up as nat, 54);
            assert(2 * low <= n) by (nonlinear_arith)
                requires
                    limit * low <= n,
                    limit == 0x20_0000_0000_0000,
            ;
        }
        low = low * 2;
        up = up + 1;
    }
    proof {
        assert(!(limit * low <= n)) by (nonlinear_arith)
            requires
                !(low <= n / limit),
                limit > 0,
        ;
        assert(goal == raised(n as nat, low as nat, e + up));
        assert(least * low < 0x4_0000_0000_0000_0000_0000_0000_00) by (nonlinear_arith)
            requires
                low < 0x40_0000_0000_0000,
                least == 0x10_0000_0000_0000,
        ;
    }
    let floor: u128 = least * low;
    let mut high: u128 = n;
    let mut down: i64 = 0;
    while high < floor
        invariant
            0 < n <= high,
            0 <= down <= 108,
            high == n * pow2(down as nat),
            least == LEAST,
            limit == LIMIT,
            limit == 2 * least,
            floor == least * low < 0x4_0000_0000_0000_0000_0000_0000_00,
            high < 2 * floor,
            low > 0,
            goal == raised(high as nat, low as nat, e + up - down),
        decreases (if high < floor { floor - high } else { 0 }),
    {
        proof {
            lemma_double_step(n as nat, down as nat);
            lemma2_to64();
            lemma2_to64_rest();
            lemma_pow2_adds(60, 46);
            lemma_doublings(n as nat, high as nat, down as nat, 106);
        }
        high = high * 2;
        down = down + 1;
    }
    let exponent: i64 = e + up - down;
    proof {
        assert(goal == settled(high as nat, low as nat, exponent as int));
        assert(high < limit * low) by (nonlinear_arith)
            requires
                high < 2 * floor,
                floor == least * low,
                limit == 2 * least,
        ;
        lemma_quotient_range(high as nat, low as nat);
    }
    let m: u128 = round(high, low);
    if m == limit {
        Double { m: LEAST, e: exponent + 1 }
    } else {
        Double { m: m as u64, e: exponent }
    }
}

/// The whole number next to a quotient in the range of mantissas is in it, or
/// just above it.
proof fn lemma_quotient_range(n: nat, d: nat)
    requires
        d > 0,
        LEAST * d <= n < LIMIT * d,
    ensures
        LEAST <= nearest(n, d) <= LIMIT,
{
    let q = n / d;
    assert(LEAST <= q < LIMIT) by (nonlinear_arith)
        requires
            q == n / d,
            LEAST * d <= n < LIMIT * d,
            d > 0,
    ;
}

/// The double next to a positive whole number.
pub fn double_of(n: u64) -> (r: Double)
    requires
        n > 0,
    ensures
        r.wf(),
        r@ == of_nat(n as nat),
        -128 <= r.e <= 128,
{
    find_nearest(n as u128, 1, 0)
}

/// The double next to a quotient.
pub fn divide(a: &Double, b: &Double) -> (r: Double)
    requires
        a.wf(),
        b.wf(),
        -1000 <= a.e <= 1000,
        -1000 <= b.e <= 1000,
    ensures
        r.wf(),
        r@ == quotient(a@, b@),
        a.e - b.e - 128 <= r.e <= a.e - b.e + 128,
{
    find_nearest(a.m as u128, b.m as u128, a.e - b.e)
}

/// The double next to a product.
pub fn multiply(a: &Double, b: &Double) -> (r: Double)
    requires
        a.wf(),
        b.wf(),
        -1000 <= a.e <= 1000,
        -1000 <= b.e <= 1000,
    ensures
        r.wf(),
        r@ == product(a@, b@),
        a.e + b.e - 128 <= r.e <= a.e + b.e + 128,
{
    proof {
        assert(0 < a.m * b.m < 0x400_0000_0000_0000_0000_0000_0000) by (nonlinear_arith)
            requires
                0 < a.m < 0x20_0000_0000_0000,
                0 < b.m < 0x20_0000_0000_0000,
        ;
    }
    find_nearest((a.m as u128) * (b.m as u128), 1, a.e + b.e)
}

/// The whole number next to a number, at most `max`.
pub fn to_whole(x: &Double, max: u64) -> (r: u64)
    requires
        x.wf(),
        -100_000 <= x.e <= 100_000,
    ensures
        r == (if whole(x@) <= max {
            whole(x@)
        } else {
            max as nat
        }),
{
    let mut e: i64 = x.e;
    if e >= 0 {
        let mut v: u128 = x.m as u128;
        let ghost m = x.m as nat;
        proof {
            assert(pow2(0) == 1) by {
                lemma2_to64();
            }
            assert(m * pow2(0) == m) by (nonlinear_arith)
                requires
                    pow2(0) == 1,
            ;
        }
        let mut k: i64 = 0;
        while k < e && v <= max as u128
            invariant
                0 <= k <= e,
                e == x.e,
                m == x.m,
                v == m * pow2(k as nat),
                v <= 2 * max as u128 || v == m,
                m < LIMIT,
            decreases e - k,
        {
            proof {
                lemma_double_step(m, k as nat);
            }
            v = v * 2;
            k = k + 1;
        }
        proof {
            if k < e {
                lemma_pow2_strictly_increases(k as nat, e as nat);
                assert(m * pow2(k as nat) <= m * pow2(e as nat)) by (nonlinear_arith)
                    requires
                        pow2(k as nat) <= pow2(e as nat),
                ;
            }
        }
        if v <= max as u128 {
            v as u64
        } else {
            max
        }
    } else {
        // From sixty halvings on nothing is left.
        let n: i64 = if e < -60 { 60 } else { -e };
        let mut unit: u128 = 1;
        let mut k: i64 = 0;
        proof {
            lemma2_to64();
        }
        while k < n
            invariant
                0 <= k <= n <= 60,
                unit == pow2(k as nat),
                1 <= unit,
                unit <= 0x1000_0000_0000_0000,
            decreases n - k,
        {
            proof {
                lemma_pow2_unfold(k as nat + 1);
                lemma2_to64_rest();
                if k + 1 < 60 {
                    lemma_pow2_strictly_increases(k as nat + 1, 60);
                }
            }
            unit = unit * 2;
            k = k + 1;
        }
        let top: u128 = 2 * (x.m as u128) + unit;
        let r: u128 = top / (2 * unit);
        proof {
            if e < -60 {
                lemma2_to64_rest();
                lemma_pow2_strictly_increases(60, (-e) as nat);
                let big = pow2((-e) as nat);
                assert((2 * x.m + big) / ((2 * big) as int) == 0) by (nonlinear_arith)
                    requires
                        0 <= 2 * x.m < big,
                        big > 0,
                ;
                assert((top as int) / (2 * unit) == 0) by (nonlinear_arith)
                    requires
                        top == 2 * (x.m as u128) + unit,
                        2 * (x.m as u128) < unit,
                ;
            }
        }
        if r <= max as u128 {
            r as u64
        } else {
            max
        }
    }
}

// ---------------------------------------------------------------------------
// Magnitudes
// ---------------------------------------------------------------------------

/// How large the exponent of a rounded quotient can be.
pub proof fn lemma_exponent_most(n: nat, d: nat, e: int, k: nat)
    requires
        0 < n <= d * pow2(k),
        0 < d,
    ensures
        nearest_double(n, d, e).e <= e + k - 51,
    decreases n - d,
{
    lemma2_to64();
    lemma2_to64_rest();
    if LIMIT * d <= n {
        assert(k >= 53) by {
            if k < 53 {
                lemma_pow2_strictly_increases(k, 53);
                assert(d * pow2(k) < d * pow2(53)) by (nonlinear_arith)
                    requires
                        pow2(k) < pow2(53),
                        d > 0,
                ;
                assert(LIMIT * d == d * pow2(53)) by (nonlinear_arith)
                    requires
                        pow2(53) == LIMIT,
                ;
            }
        }
        lemma_pow2_unfold(k);
        assert((2 * d) * pow2((k - 1) as nat) == d * pow2(k)) by (nonlinear_arith)
            requires
                pow2(k) == 2 * pow2((k - 1) as nat),
        ;
        assert(2 * d <= n) by (nonlinear_arith)
            requires
                LIMIT * d <= n,
                LIMIT == 0x20_0000_0000_0000,
        ;
        lemma_exponent_most(n, 2 * d, e + 1, (k - 1) as nat);
    } else {
        lemma_raised_most(n, d, e, k);
    }
}

proof fn lemma_raised_most(n: nat, d: nat, e: int, k: nat)
    requires
        0 < n <= d * pow2(k),
        0 < d,
    ensures
        raised(n, d, e).e <= e + k - 51,
    decreases (if n < LEAST * d { LEAST * d - n } else { 0 }),
{
    lemma2_to64();
    lemma2_to64_rest();
    if n < LEAST * d {
        lemma_pow2_unfold(k + 1);
        assert(2 * n <= d * pow2(k + 1)) by (nonlinear_arith)
            requires
                n <= d * pow2(k),
                pow2(k + 1) == 2 * pow2(k),
        ;
        lemma_raised_most(2 * n, d, e - 1, k + 1);
    } else {
        assert(k >= 52) by {
            if k < 52 {
                lemma_pow2_strictly_increases(k, 52);
                assert(d * pow2(k) < d * pow2(52)) by (nonlinear_arith)
                    requires
                        pow2(k) < pow2(52),
                        d > 0,
                ;
                assert(LEAST * d == d * pow2(52)) by (nonlinear_arith)
                    requires
                        pow2(52) == LEAST,
                ;
            }
        }
    }
}

/// How small the exponent of a rounded quotient can be.
pub proof fn lemma_exponent_least(n: nat, d: nat, e: int, j: nat, k: nat)
    requires
        0 < n,
        0 < d,
        d * pow2(j) <= n * pow2(k),
    ensures
        nearest_double(n, d, e).e >= e + j - k - 52,
    decreases n - d,
{
    lemma2_to64();
    lemma2_to64_rest();
    if LIMIT * d <= n {
        assert(2 * d <= n) by (nonlinear_arith)
            requires
                LIMIT * d <= n,
                LIMIT == 0x20_0000_0000_0000,
        ;
        lemma_pow2_unfold(k + 1);
        assert((2 * d) * pow2(j) <= n * pow2(k + 1)) by (nonlinear_arith)
            requires
                d * pow2(j) <= n * pow2(k),
                pow2(k + 1) == 2 * pow2(k),
        ;
        lemma_exponent_least(n, 2 * d, e + 1, j, k + 1);
    } else {
        assert(j <= k + 52) by {
            if j > k + 52 {
                let over = (j - k - 53) as nat;
                lemma_pow2_adds(over, (k + 53) as nat);
                lemma_pow2_adds(k, 53);
                lemma_pow2_pos(over);
                assert(d * pow2(j) >= LIMIT * d * pow2(k)) by (nonlinear_arith)
                    requires
                        pow2(j) == pow2(over) * (pow2(k) * LIMIT),
                        pow2(over) >= 1,
                        pow2(k) >= 0,
                        d > 0,
                ;
                lemma_pow2_pos(k);
                assert(n * pow2(k) < LIMIT * d * pow2(k)) by (nonlinear_arith)
                    requires
                        n < LIMIT * d,
                        pow2(k) > 0,
                ;
            }
        }
        assert(n * pow2(0) == n) by (nonlinear_arith)
            requires
                pow2(0) == 1,
        ;
        lemma_raised_least(n, n, d, e, 0, j, k);
    }
}

proof fn lemma_raised_least(n0: nat, n: nat, d: nat, e: int, t: nat, j: nat, k: nat)
    requires
        0 < n0,
        0 < d,
        n == n0 * pow2(t),
        d * pow2(j) <= n0 * pow2(k),
        t + j <= k + 52,
    ensures
        raised(n, d, e).e >= e + t + j - k - 52,
    decreases (if n < LEAST * d { LEAST * d - n } else { 0 }),
{
    lemma2_to64();
    lemma2_to64_rest();
    if 0 < n && n < LEAST * d {
        assert(t + j < k + 52) by {
            if t + j == k + 52 {
                lemma_pow2_adds(t, j);
                lemma_pow2_adds(k, 52);
                lemma_pow2_pos(j);
                assert(n0 * pow2(t) * pow2(j) >= LEAST * d * pow2(j)) by (nonlinear_arith)
                    requires
                        pow2(t) * pow2(j) == pow2(k) * LEAST,
                        d * pow2(j) <= n0 * pow2(k),
                ;
                assert(n >= LEAST * d) by (nonlinear_arith)
                    requires
                        n * pow2(j) >= LEAST * d * pow2(j),
                        pow2(j) > 0,
                ;
            }
        }
        lemma_double_step(n0, t);
        lemma_raised_least(n0, 2 * n, d, e - 1, t + 1, j, k);
    }
}

/// A number in parts of a unit, rounded.
pub open spec fn in_parts(x: Scaled, unit: nat) -> nat {
    if x.e >= 0 {
        x.m * unit * pow2(x.e as nat)
    } else {
        nearest(x.m * unit, pow2((-x.e) as nat))
    }
}

/// A number in parts of a unit, rounded.
pub fn to_parts(x: &Double, unit: u64) -> (r: u128)
    requires
        x.wf(),
        unit <= 1_000_000,
        -126 <= x.e <= 50,
    ensures
        r == in_parts(x@, unit as nat),
{
    proof {
        assert(0 <= x.m * unit <= 9007199254740992 * 1_000_000) by (nonlinear_arith)
            requires
                0 <= x.m <= 9007199254740992,
                0 <= unit <= 1_000_000,
        ;
    }
    let n: u128 = (x.m as u128) * (unit as u128);
    let k: u64 = if x.e >= 0 { x.e as u64 } else { (-x.e) as u64 };
    let mut scale: u128 = 1;
    let mut i: u64 = 0;
    proof {
        lemma2_to64();
        lemma2_to64_rest();
    }
    while i < k
        invariant
            i <= k <= 126,
            scale == pow2(i as nat),
            scale <= 0x4000_0000_0000_0000_0000_0000_0000_0000,
        decreases k - i,
    {
        proof {
            lemma_pow2_unfold(i as nat + 1);
            lemma2_to64_rest();
            lemma_pow2_adds(63, 63);
            if i + 1 < 126 {
                lemma_pow2_strictly_increases(i as nat + 1, 126);
            }
        }
        scale = scale * 2;
        i = i + 1;
    }
    if x.e >= 0 {
        proof {
            lemma2_to64_rest();
            if k < 50 {
                lemma_pow2_strictly_increases(k as nat, 50);
            }
            assert(n * scale <= 9007199254740992 * 1_000_000 * 1125899906842624) by (nonlinear_arith)
                requires
                    0 <= n <= 9007199254740992 * 1_000_000,
                    0 <= scale <= 1125899906842624,
            ;
        }
        n * scale
    } else {
        proof {
            lemma_pow2_pos(k as nat);
        }
        round(n, scale)
    }
}

} // verus!
