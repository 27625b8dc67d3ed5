//! Laws of how sizes, durations and rates are told.

use crate::compare::{later, seconds_at, CopyRunSample};
use crate::double::{in_parts, of_nat, product, quotient};
use crate::double_laws::{
    is_exactly, law_exact_product, law_exact_quotient, law_nearest_is_nearest,
    law_whole_numbers_are_exact, lemma_whole_of_exact,
};
use crate::logs::percent_text;
use crate::number::{decimal, fixed};
use crate::progress::{
    bytes_text, duration_text, eta_of, eta_text, has_rate, rate_of, rate_text, remaining_bytes,
    short_bytes_text, to_precision, two_digits, whole_rate, CopyProgressSnapshot,
};
use crate::ratio::nearest;
use vstd::arithmetic::power::{lemma_pow0, lemma_pow1, pow};
use vstd::prelude::*;

verus! {

// ---------------------------------------------------------------------------
// Sizes
// ---------------------------------------------------------------------------

proof fn lemma_precision_is_enough(n: nat)
    requires
        n < 0x20_0000_0000_0000,
    ensures
        to_precision(n, 1) == n,
{
    law_nearest_is_nearest(n, 1);
    assert(n * 1 == n);
    assert(nearest(n, 1) == n);
}

/// Whether a text tells `hundredths` of a unit, and these are the ones next to a
/// number of bytes.
pub open spec fn tells_hundredths(
    text: Seq<char>,
    bytes: u64,
    unit: nat,
    name: Seq<char>,
    hundredths: nat,
) -> bool {
    &&& text == fixed(hundredths, 2) + " "@ + name
    &&& 2 * (hundredths * unit - bytes * 100) <= unit
    &&& 2 * (bytes * 100 - hundredths * unit) <= unit
}

/// A size is told in the greatest of bytes, kibibytes, mebibytes, gibibytes and
/// tebibytes that it reaches, each 1024 of the one before, and to the nearest
/// hundredth.
pub proof fn law_sizes_are_told_in_units(bytes: u64)
    requires
        bytes < 0x20_0000_0000_0000,
    ensures
        bytes < 1024 ==> exists|h: nat| #[trigger]
            tells_hundredths(bytes_text(bytes), bytes, 1, "B"@, h),
        1024 <= bytes < 1_048_576 ==> exists|h: nat| #[trigger]
            tells_hundredths(bytes_text(bytes), bytes, 1024, "KiB"@, h),
        1_048_576 <= bytes < 1_073_741_824 ==> exists|h: nat| #[trigger]
            tells_hundredths(bytes_text(bytes), bytes, 1_048_576, "MiB"@, h),
        1_073_741_824 <= bytes < 1_099_511_627_776 ==> exists|h: nat| #[trigger]
            tells_hundredths(bytes_text(bytes), bytes, 1_073_741_824, "GiB"@, h),
        1_099_511_627_776 <= bytes ==> exists|h: nat| #[trigger]
            tells_hundredths(bytes_text(bytes), bytes, 1_099_511_627_776, "TiB"@, h),
{
    lemma_precision_is_enough(bytes as nat);
    let (unit, name): (nat, Seq<char>) = if bytes < 1024 {
        (1, "B"@)
    } else if bytes < 1_048_576 {
        (1024, "KiB"@)
    } else if bytes < 1_073_741_824 {
        (1_048_576, "MiB"@)
    } else if bytes < 1_099_511_627_776 {
        (1_073_741_824, "GiB"@)
    } else {
        (1_099_511_627_776, "TiB"@)
    };
    let h = nearest((bytes * 100) as nat, unit);
    law_nearest_is_nearest((bytes * 100) as nat, unit);
    assert(tells_hundredths(bytes_text(bytes), bytes, unit, name, h));
}

/// Whether a text tells `tenths` of a unit, and these are the ones next to a
/// number of bytes.
pub open spec fn tells_tenths(
    text: Seq<char>,
    bytes: u64,
    unit: nat,
    name: Seq<char>,
    tenths: nat,
) -> bool {
    &&& text == fixed(tenths, 1) + " "@ + name
    &&& 2 * (tenths * unit - bytes * 10) <= unit
    &&& 2 * (bytes * 10 - tenths * unit) <= unit
}

/// In short, a size is told to the nearest tenth of its unit, and bare bytes
/// without any.
pub proof fn law_short_sizes_are_told_in_units(bytes: u64)
    requires
        bytes < 0x20_0000_0000_0000,
    ensures
        bytes < 1024 ==> short_bytes_text(bytes) == decimal(bytes as nat) + " B"@,
        1024 <= bytes < 1_048_576 ==> exists|h: nat| #[trigger]
            tells_tenths(short_bytes_text(bytes), bytes, 1024, "KiB"@, h),
        1_048_576 <= bytes < 1_073_741_824 ==> exists|h: nat| #[trigger]
            tells_tenths(short_bytes_text(bytes), bytes, 1_048_576, "MiB"@, h),
        1_073_741_824 <= bytes < 1_099_511_627_776 ==> exists|h: nat| #[trigger]
            tells_tenths(short_bytes_text(bytes), bytes, 1_073_741_824, "GiB"@, h),
        1_099_511_627_776 <= bytes ==> exists|h: nat| #[trigger]
            tells_tenths(short_bytes_text(bytes), bytes, 1_099_511_627_776, "TiB"@, h),
{
    lemma_precision_is_enough(bytes as nat);
    let (unit, name): (nat, Seq<char>) = if bytes < 1024 {
        (1, "B"@)
    } else if bytes < 1_048_576 {
        (1024, "KiB"@)
    } else if bytes < 1_073_741_824 {
        (1_048_576, "MiB"@)
    } else if bytes < 1_099_511_627_776 {
        (1_073_741_824, "GiB"@)
    } else {
        (1_099_511_627_776, "TiB"@)
    };
    if bytes >= 1024 {
        let h = nearest((bytes * 10) as nat, unit);
        law_nearest_is_nearest((bytes * 10) as nat, unit);
        assert(tells_tenths(short_bytes_text(bytes), bytes, unit, name, h));
    }
}

/// A number of hundredths or tenths is told with the whole ones before the
/// point, and as many digits behind it as its parts have.
pub proof fn law_parts_stand_behind_the_point(n: nat, k: nat)
    ensures
        10 <= k < 100 ==> fixed(100 * n + k, 2) == decimal(n) + seq!['.'] + decimal(k),
        k < 10 ==> fixed(100 * n + k, 2) == decimal(n) + seq!['.', '0'] + decimal(k),
        k < 10 ==> fixed(10 * n + k, 1) == decimal(n) + seq!['.'] + decimal(k),
{
    lemma_pow0(10);
    lemma_pow1(10);
    assert(pow(10, 1) == 10);
    assert(pow(10, 2) == 100) by {
        reveal(pow);
        assert(pow(10, 2) == 10 * pow(10, 1));
    }
    if 10 <= k < 100 {
        assert((100 * n + k) / 100 == n && (100 * n + k) % 100 == k);
        assert(decimal(k).len() == 2) by {
            assert(decimal(k / 10).len() == 1);
        }
    }
    if k < 10 {
        assert((100 * n + k) / 100 == n && (100 * n + k) % 100 == k);
        assert((10 * n + k) / 10 == n && (10 * n + k) % 10 == k);
        assert(decimal(k).len() == 1);
        let padded = Seq::new(1, |i: int| '0') + decimal(k);
        assert(decimal(n) + seq!['.'] + padded =~= decimal(n) + seq!['.', '0'] + decimal(k));
    }
}

// ---------------------------------------------------------------------------
// Durations
// ---------------------------------------------------------------------------

/// Numbers below ten are told with a zero before them.
pub proof fn law_two_digits(n: nat)
    ensures
        n < 10 ==> two_digits(n) == seq!['0'] + decimal(n),
        n >= 10 ==> two_digits(n) == decimal(n),
{
    if n < 10 {
        assert(decimal(n).len() == 1);
        assert(Seq::new(1, |i: int| '0') =~= seq!['0']);
    } else {
        assert(decimal(n / 10).len() >= 1);
        assert(decimal(n).len() >= 2);
    }
}

/// A duration is told in days of 24 hours, hours of 60 minutes, minutes of 60
/// seconds and whole seconds: the days where there are any, then without the
/// seconds; the hours where there are any or there are days; and always the
/// minutes.
pub proof fn law_durations_are_told_in_parts(
    ns: i64,
    days: nat,
    hours: nat,
    minutes: nat,
    seconds: nat,
    rest: nat,
)
    requires
        ns == (((days * 24 + hours) * 60 + minutes) * 60 + seconds) * 1_000_000_000 + rest,
        hours < 24,
        minutes < 60,
        seconds < 60,
        rest < 1_000_000_000,
        ns > 0,
    ensures
        days > 0 ==> duration_text(ns) == decimal(days) + "d "@ + two_digits(hours) + "h "@
            + two_digits(minutes) + "m"@,
        days == 0 && hours > 0 ==> duration_text(ns) == two_digits(hours) + "h "@ + two_digits(
            minutes,
        ) + "m "@ + two_digits(seconds) + "s"@,
        days == 0 && hours == 0 ==> duration_text(ns) == two_digits(minutes) + "m "@ + two_digits(
            seconds,
        ) + "s"@,
{
    let all = ((days * 24 + hours) * 60 + minutes) * 60 + seconds;
    assert(ns as nat / 1_000_000_000 == all);
    assert(all == days * 86_400 + hours * 3_600 + minutes * 60 + seconds);
    assert(all / 86_400 == days);
    assert(all % 86_400 == hours * 3_600 + minutes * 60 + seconds);
    assert((all % 86_400) / 3_600 == hours);
    assert(all % 3_600 == minutes * 60 + seconds);
    assert((all % 3_600) / 60 == minutes);
    assert(all % 60 == seconds);
}

/// No time, and less, is told as no minutes and no seconds.
pub proof fn law_no_duration(ns: i64)
    requires
        ns <= 0,
    ensures
        duration_text(ns) == "00m 00s"@,
{
}

// ---------------------------------------------------------------------------
// Rates
// ---------------------------------------------------------------------------

proof fn lemma_rate(rate: nat, seconds: nat, bytes: u64, elapsed_ns: i64)
    requires
        0 < rate,
        0 < seconds,
        bytes == rate * seconds,
        elapsed_ns == seconds * 1_000_000_000,
        bytes < 0x20_0000_0000_0000,
        elapsed_ns < 0x20_0000_0000_0000,
    ensures
        is_exactly(rate_of(bytes, elapsed_ns), rate),
        rate <= bytes,
{
    assert(0 < bytes && rate <= bytes) by (nonlinear_arith)
        requires
            bytes == rate * seconds,
            0 < rate,
            0 < seconds,
    ;
    let second = 1_000_000_000 as nat;
    law_whole_numbers_are_exact(bytes as nat);
    law_whole_numbers_are_exact(elapsed_ns as nat);
    law_whole_numbers_are_exact(second);
    law_exact_quotient(
        of_nat(elapsed_ns as nat),
        of_nat(second),
        elapsed_ns as nat,
        second,
        seconds,
    );
    let time = quotient(of_nat(elapsed_ns as nat), of_nat(second));
    law_exact_quotient(of_nat(bytes as nat), time, bytes as nat, seconds, rate);
}

/// A rate is in bytes per second: that of as many bytes in each of a number of
/// seconds is that many bytes.
pub proof fn law_rate_is_bytes_per_second(rate: nat, seconds: nat, bytes: u64, elapsed_ns: i64)
    requires
        0 < rate,
        0 < seconds,
        bytes == rate * seconds,
        elapsed_ns == seconds * 1_000_000_000,
        bytes < 0x20_0000_0000_0000,
        elapsed_ns < 0x20_0000_0000_0000,
    ensures
        whole_rate(bytes, elapsed_ns) == rate,
        rate_text(bytes, elapsed_ns) == bytes_text(rate as u64),
{
    lemma_rate(rate, seconds, bytes, elapsed_ns);
    lemma_whole_of_exact(rate_of(bytes, elapsed_ns), rate);
    assert(bytes > 0);
}

/// Without bytes or without time there is no rate to tell, and no time that is
/// left.
pub proof fn law_no_rate(s: CopyProgressSnapshot)
    requires
        s.copied_bytes == 0 || s.elapsed_ns <= 0,
    ensures
        !has_rate(s.copied_bytes, s.elapsed_ns),
        rate_text(s.copied_bytes, s.elapsed_ns) == "n/a"@,
        eta_text(s) == "n/a"@,
{
}

/// The time that is left is what the bytes that are left take at the rate so
/// far.
pub proof fn law_time_left_is_at_the_rate_so_far(
    s: CopyProgressSnapshot,
    rate: nat,
    seconds: nat,
    left: nat,
)
    requires
        0 < rate,
        0 < seconds,
        0 < left,
        s.copied_bytes == rate * seconds,
        s.elapsed_ns == seconds * 1_000_000_000,
        s.planned_bytes == s.copied_bytes + rate * left,
        s.planned_bytes < 0x20_0000_0000_0000,
        s.elapsed_ns < 0x20_0000_0000_0000,
        left * 1_000_000_000 < 0x20_0000_0000_0000,
    ensures
        eta_of(remaining_bytes(s), rate_of(s.copied_bytes, s.elapsed_ns)) == left * 1_000_000_000,
        eta_text(s) == duration_text((left * 1_000_000_000) as i64),
{
    let r = rate_of(s.copied_bytes, s.elapsed_ns);
    lemma_rate(rate, seconds, s.copied_bytes, s.elapsed_ns);
    assert(0 < rate * left && 0 < rate * seconds) by (nonlinear_arith)
        requires
            0 < rate,
            0 < left,
            0 < seconds,
    ;
    let n = remaining_bytes(s) as nat;
    assert(n == rate * left);
    assert(n == left * rate) by (nonlinear_arith)
        requires
            n == rate * left,
    ;
    law_whole_numbers_are_exact(n);
    law_exact_quotient(of_nat(n), r, n, rate, left);
    law_whole_numbers_are_exact(1_000_000_000);
    law_exact_product(quotient(of_nat(n), r), of_nat(1_000_000_000), left, 1_000_000_000);
    lemma_whole_of_exact(
        product(quotient(of_nat(n), r), of_nat(1_000_000_000)),
        left * 1_000_000_000,
    );
}

/// Once all is copied, no time is left.
pub proof fn law_nothing_left(s: CopyProgressSnapshot)
    requires
        s.planned_bytes <= s.copied_bytes,
        s.copied_bytes > 0,
        s.elapsed_ns > 0,
    ensures
        eta_text(s) == "00m 00s"@,
{
}

/// The seconds that a copy takes are as many as the earlier one took for as
/// many bytes.
pub proof fn law_seconds_at_an_earlier_rate(
    rate: nat,
    seconds: nat,
    sample: CopyRunSample,
    left: nat,
    bytes: u64,
)
    requires
        0 < rate,
        0 < seconds,
        0 < left,
        sample.bytes_copied == rate * seconds,
        sample.duration_ns == seconds * 1_000_000_000,
        sample.bytes_copied < 0x20_0000_0000_0000,
        sample.duration_ns < 0x20_0000_0000_0000,
        bytes == rate * left,
        bytes < 0x20_0000_0000_0000,
    ensures
        seconds_at(bytes, rate_of(sample.bytes_copied, sample.duration_ns)) == left,
{
    let r = rate_of(sample.bytes_copied, sample.duration_ns);
    lemma_rate(rate, seconds, sample.bytes_copied, sample.duration_ns);
    assert(0 < bytes && left <= bytes) by (nonlinear_arith)
        requires
            0 < rate,
            0 < left,
            bytes == rate * left,
    ;
    assert(bytes == left * rate) by (nonlinear_arith)
        requires
            bytes == rate * left,
    ;
    law_whole_numbers_are_exact(bytes as nat);
    law_exact_quotient(of_nat(bytes as nat), r, bytes as nat, rate, left);
    lemma_whole_of_exact(quotient(of_nat(bytes as nat), r), left);
}

/// Of two earlier copies the later one counts; the only one does where there is
/// no other, and the left one where both are of one time.
pub proof fn law_later_copy_counts(left: Option<CopyRunSample>, right: Option<CopyRunSample>)
    ensures
        later(left, right) == left || later(left, right) == right,
        left is None && right is None <==> later(left, right) is None,
        later(left, right) matches Some(s) ==> (left matches Some(l) ==> l.copied_at <= s.copied_at)
            && (right matches Some(r) ==> r.copied_at <= s.copied_at),
        (left is Some && right is Some && left->0.copied_at == right->0.copied_at) ==> later(
            left,
            right,
        ) == left,
{
}

/// A part of a whole is told in percent: so many hundredths of it as that.
pub proof fn law_percent_of_a_whole(part: u64, all: u64, percent: nat)
    requires
        0 < part,
        0 < all,
        part * 100 == percent * all,
        part * 100 < 0x20_0000_0000_0000,
        all < 0x20_0000_0000_0000,
    ensures
        percent_text(part, all) == fixed(100 * percent, 2),
{
    let a = of_nat(part as nat);
    let h = of_nat(100);
    let w = of_nat(all as nat);
    law_whole_numbers_are_exact(part as nat);
    law_whole_numbers_are_exact(100);
    law_whole_numbers_are_exact(all as nat);
    law_exact_product(a, h, part as nat, 100);
    let n = (part * 100) as nat;
    assert(0 < percent <= n) by (nonlinear_arith)
        requires
            n == percent * all,
            n > 0,
            all > 0,
    ;
    law_exact_quotient(product(a, h), w, n, all as nat, percent);
    lemma_whole_of_exact(quotient(product(a, h), w), percent);
    assert(in_parts(quotient(product(a, h), w), 100) == percent
        * 100);
}

/// Nothing of a whole, and anything of nothing, is no percent.
pub proof fn law_no_percent(part: u64, all: u64)
    requires
        part == 0 || all == 0,
    ensures
        percent_text(part, all) == fixed(0, 2),
{
}

} // verus!
