//! Numbers as text: decimal and hexadecimal digits, and fixed decimals.

use crate::text::{all_digits, digit_test, extend, from_chars, is_digit, slice};
use vstd::arithmetic::power::{lemma_pow0, pow};
use vstd::prelude::*;

verus! {

/// The character of a digit below sixteen.
pub open spec fn digit_char(d: int) -> char {
    if d < 10 {
        (48 + d) as u8 as char
    } else {
        (87 + d) as u8 as char
    }
}

fn digit_of(d: u8) -> (r: char)
    requires
        d < 16,
    ensures
        r == digit_char(d as int),
{
    if d < 10 {
        (48 + d) as char
    } else {
        (87 + d) as char
    }
}

/// The digits of a number in a base, the highest first.
pub open spec fn digits(n: nat, base: nat) -> Seq<char>
    decreases n,
    via digits_decreases
{
    if base < 2 || n < base {
        seq![digit_char(n as int)]
    } else {
        digits(n / base, base).push(digit_char((n % base) as int))
    }
}

#[via_fn]
proof fn digits_decreases(n: nat, base: nat) {
    if base >= 2 && n >= base {
        assert(n / base < n) by (nonlinear_arith)
            requires
                base >= 2,
                n >= base,
        ;
    }
}

/// A number in decimal digits.
pub open spec fn decimal(n: nat) -> Seq<char> {
    digits(n, 10)
}

/// A number in lower-case hexadecimal digits.
pub open spec fn hex(n: nat) -> Seq<char> {
    digits(n, 16)
}

/// An integer in decimal digits, with a sign where it is negative.
pub open spec fn decimal_int(n: int) -> Seq<char> {
    if n < 0 {
        seq!['-'] + decimal((-n) as nat)
    } else {
        decimal(n as nat)
    }
}

/// A text brought to a width by zeros in front.
pub open spec fn zero_padded(s: Seq<char>, width: nat) -> Seq<char> {
    if s.len() >= width {
        s
    } else {
        Seq::new((width - s.len()) as nat, |i: int| '0') + s
    }
}

/// `n` units of `10^-places`, written with `places` digits behind the point.
pub open spec fn fixed(n: nat, places: nat) -> Seq<char> {
    let unit = pow(10, places) as nat;
    decimal(n / unit) + seq!['.'] + zero_padded(decimal(n % unit), places)
}

fn digits_rec(n: u128, base: u8) -> (r: Vec<char>)
    requires
        2 <= base <= 16,
    ensures
        r@ == digits(n as nat, base as nat),
    decreases n,
{
    let b: u128 = base as u128;
    if n < b {
        let mut r: Vec<char> = Vec::new();
        r.push(digit_of(n as u8));
        r
    } else {
        let high: u128 = n / b;
        let low: u128 = n % b;
        proof {
            assert(high < n && low < b && high == n as nat / base as nat && low == n as nat
                % base as nat) by (nonlinear_arith)
                requires
                    high == n / b,
                    low == n % b,
                    b == base,
                    b >= 2,
                    n >= b,
            ;
        }
        let mut r = digits_rec(high, base);
        r.push(digit_of(low as u8));
        r
    }
}

pub fn decimal_chars(n: u128) -> (r: Vec<char>)
    ensures
        r@ == decimal(n as nat),
{
    digits_rec(n, 10)
}

pub fn hex_chars(n: u128) -> (r: Vec<char>)
    ensures
        r@ == hex(n as nat),
{
    digits_rec(n, 16)
}

pub fn decimal_int_chars(n: i128) -> (r: Vec<char>)
    requires
        n > i128::MIN,
    ensures
        r@ == decimal_int(n as int),
{
    if n < 0 {
        let mut r: Vec<char> = Vec::new();
        r.push('-');
        let low = decimal_chars((-n) as u128);
        extend(&mut r, &low);
        r
    } else {
        decimal_chars(n as u128)
    }
}

pub fn pad_zeros(s: &Vec<char>, width: usize) -> (r: Vec<char>)
    ensures
        r@ == zero_padded(s@, width as nat),
{
    let mut r: Vec<char> = Vec::new();
    if s.len() < width {
        let missing: usize = width - s.len();
        let mut i: usize = 0;
        while i < missing
            invariant
                i <= missing,
                r@ == Seq::new(i as nat, |k: int| '0'),
            decreases missing - i,
        {
            r.push('0');
            i = i + 1;
            assert(r@ =~= Seq::new(i as nat, |k: int| '0'));
        }
    }
    extend(&mut r, s);
    assert(r@ =~= zero_padded(s@, width as nat));
    r
}

/// The hexadecimal digits of a number, brought to sixteen places.
pub fn hex_sixteen(n: u64) -> (r: String)
    ensures
        r@ == zero_padded(hex(n as nat), 16),
{
    let d = hex_chars(n as u128);
    let p = pad_zeros(&d, 16);
    from_chars(&p)
}

fn ten_to(places: u8) -> (r: u128)
    requires
        places <= 9,
    ensures
        r == pow(10, places as nat),
        1 <= r <= 1_000_000_000,
{
    let mut r: u128 = 1;
    let mut i: u8 = 0;
    proof {
        lemma_pow0(10);
    }
    while i < places
        invariant
            i <= places <= 9,
            r == pow(10, i as nat),
            1 <= r,
            i == 0 ==> r == 1,
            i == 1 ==> r == 10,
            i == 2 ==> r == 100,
            i == 3 ==> r == 1_000,
            i == 4 ==> r == 10_000,
            i == 5 ==> r == 100_000,
            i == 6 ==> r == 1_000_000,
            i == 7 ==> r == 10_000_000,
            i == 8 ==> r == 100_000_000,
            i == 9 ==> r == 1_000_000_000,
        decreases places - i,
    {
        reveal(pow);
        r = r * 10;
        i = i + 1;
    }
    r
}

pub fn fixed_chars(n: u128, places: u8) -> (r: Vec<char>)
    requires
        places <= 9,
    ensures
        r@ == fixed(n as nat, places as nat),
{
    let unit: u128 = ten_to(places);
    let mut r = decimal_chars(n / unit);
    r.push('.');
    let low = decimal_chars(n % unit);
    let low = pad_zeros(&low, places as usize);
    extend(&mut r, &low);
    proof {
        let u = pow(10, places as nat) as nat;
        assert(u == unit);
        assert(n / unit == n as nat / u);
        assert(n % unit == n as nat % u);
        assert(r@ =~= fixed(n as nat, places as nat));
    }
    r
}

// ---------------------------------------------------------------------------
// Reading numbers
// ---------------------------------------------------------------------------

/// The value of a text of decimal digits.
pub open spec fn digits_value(s: Seq<char>) -> nat
    decreases s.len(),
{
    if s.len() == 0 {
        0
    } else {
        10 * digits_value(s.drop_last()) + ((s.last() as u8) - 48) as nat
    }
}

/// The number that a text denotes: decimal digits, at least one, behind an
/// optional `+`.
pub open spec fn number_of(s: Seq<char>) -> Option<nat> {
    let d = without_plus(s);
    if d.len() > 0 && all_digits(d) {
        Some(digits_value(d))
    } else {
        None
    }
}

/// The text behind an optional leading `+`.
pub open spec fn without_plus(s: Seq<char>) -> Seq<char> {
    if s.len() > 0 && s[0] == '+' {
        s.skip(1)
    } else {
        s
    }
}

/// The number that a text denotes, where it is at most `max`.
pub open spec fn bounded_number(s: Seq<char>, max: nat) -> Option<nat> {
    match number_of(s) {
        Some(n) => if n <= max {
            Some(n)
        } else {
            None
        },
        None => None,
    }
}

proof fn lemma_digits_value_grows(s: Seq<char>, i: int)
    requires
        0 <= i <= s.len(),
    ensures
        digits_value(s.take(i)) <= digits_value(s),
    decreases s.len(),
{
    if i == s.len() {
        assert(s.take(i) =~= s);
    } else {
        lemma_digits_value_grows(s.drop_last(), i);
        assert(s.drop_last().take(i) =~= s.take(i));
    }
}

/// Reads a number that is at most `max`.
pub fn parse_number(s: &Vec<char>, max: u128) -> (r: Option<u128>)
    ensures
        match r {
            Some(n) => bounded_number(s@, max as nat) == Some(n as nat),
            None => bounded_number(s@, max as nat) is None,
        },
{
    let from: usize = if s.len() > 0 && s[0] == '+' {
        1
    } else {
        0
    };
    let d = slice(s, from, s.len());
    proof {
        if from == 1 {
            assert(d@ =~= s@.skip(1));
        } else {
            assert(d@ =~= s@);
        }
    }
    if d.len() == 0 {
        return None;
    }
    let mut n: u128 = 0;
    let mut i: usize = 0;
    // Whether the digits read so far still denote a number that is at most `max`.
    let mut fits = true;
    while i < d.len()
        invariant
            i <= d.len(),
            d.len() > 0,
            d@ == without_plus(s@),
            fits ==> n <= max && n == digits_value(d@.take(i as int)),
            !fits ==> digits_value(d@) > max,
            forall|k: int| 0 <= k < i ==> is_digit(#[trigger] d@[k]),
        decreases d.len() - i,
    {
        let c = d[i];
        if !digit_test(c) {
            assert(!is_digit(d@[i as int]));
            return None;
        }
        if fits {
            let digit: u128 = ((c as u8) - 48) as u128;
            proof {
                assert(d@.take(i as int + 1).drop_last() =~= d@.take(i as int));
                lemma_digits_value_grows(d@, i as int + 1);
            }
            match n.checked_mul(10) {
                Some(tens) => match tens.checked_add(digit) {
                    Some(next) => {
                        if next > max {
                            fits = false;
                        } else {
                            n = next;
                        }
                    },
                    None => {
                        fits = false;
                    },
                },
                None => {
                    fits = false;
                },
            }
        }
        i = i + 1;
    }
    assert(d@.take(i as int) =~= d@);
    if fits {
        Some(n)
    } else {
        None
    }
}

/// The digits of a number denote that number.
pub proof fn law_decimal_round_trip(n: nat)
    ensures
        number_of(decimal(n)) == Some(n),
        all_digits(decimal(n)),
        digits_value(decimal(n)) == n,
    decreases n,
{
    let s = decimal(n);
    if n >= 10 {
        law_decimal_round_trip(n / 10);
        let init = decimal(n / 10);
        assert(s.drop_last() =~= init);
        assert forall|i: int| 0 <= i < s.len() implies is_digit(#[trigger] s[i]) by {
            if i < init.len() {
                assert(s[i] == init[i]);
            }
        }
        assert(s[0] == init[0]);
        assert(is_digit(init[0]));
    } else {
        assert(s.drop_last() =~= Seq::empty());
        assert(digits_value(s.drop_last()) == 0);
    }
    assert(is_digit(s[0]));
    assert(without_plus(s) == s);
}

/// Two integers with the same decimal text are equal.
pub proof fn lemma_decimal_int_injective(a: int, b: int)
    requires
        decimal_int(a) == decimal_int(b),
    ensures
        a == b,
{
    let x = if a < 0 { -a } else { a };
    let y = if b < 0 { -b } else { b };
    law_decimal_round_trip(x as nat);
    law_decimal_round_trip(y as nat);
    let da = decimal(x as nat);
    let db = decimal(y as nat);
    assert(is_digit(da[0]) && is_digit(db[0]));
    if a < 0 {
        assert(decimal_int(a)[0] == '-');
        if b >= 0 {
            assert(decimal_int(b)[0] == db[0]);
        }
        assert(decimal_int(a).skip(1) =~= da);
        assert(decimal_int(b).skip(1) =~= db);
    } else if b < 0 {
        assert(decimal_int(b)[0] == '-');
        assert(decimal_int(a)[0] == da[0]);
    }
}

} // verus!
