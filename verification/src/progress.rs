//! Lines that tell how a copy run goes: sizes, durations, rates and counts.

use crate::double::{
    divide, double_of, lemma_exponent_least, lemma_exponent_most, multiply, of_nat, product,
    quotient, to_whole, whole, Double, Scaled, LIMIT,
};
use crate::number::{decimal, decimal_chars, fixed, fixed_chars, pad_zeros, zero_padded};
use crate::ratio::{nearest, round};
use crate::text::{extend, extend_str, from_chars, to_chars};
use vstd::arithmetic::power2::{lemma2_to64, lemma2_to64_rest};
use vstd::prelude::*;

verus! {

// ---------------------------------------------------------------------------
// Sizes
// ---------------------------------------------------------------------------

/// A whole number to the precision of doubles, in multiples of `unit` or of
/// the least of its doubles that leaves 53 binary digits.
pub open spec fn to_precision(n: nat, unit: nat) -> nat
    decreases n - unit,
{
    if 0 < unit && LIMIT * unit <= n {
        to_precision(n, 2 * unit)
    } else {
        nearest(n, unit) * unit
    }
}

/// A number of bytes in double precision.
pub open spec fn in_double(bytes: u64) -> nat {
    to_precision(bytes as nat, 1)
}

/// The unit that a number of bytes is told in: the greatest that it reaches.
pub open spec fn unit_of(v: nat) -> int {
    if v >= 1024 * 1024 * 1024 * 1024 {
        4
    } else if v >= 1024 * 1024 * 1024 {
        3
    } else if v >= 1024 * 1024 {
        2
    } else if v >= 1024 {
        1
    } else {
        0
    }
}

/// The bytes of a unit.
pub open spec fn unit_size(unit: int) -> nat {
    if unit >= 4 {
        1024 * 1024 * 1024 * 1024
    } else if unit == 3 {
        1024 * 1024 * 1024
    } else if unit == 2 {
        1024 * 1024
    } else if unit == 1 {
        1024
    } else {
        1
    }
}

/// The name of a unit.
pub open spec fn unit_name(unit: int) -> Seq<char> {
    if unit >= 4 {
        "TiB"@
    } else if unit == 3 {
        "GiB"@
    } else if unit == 2 {
        "MiB"@
    } else if unit == 1 {
        "KiB"@
    } else {
        "B"@
    }
}

/// A number of bytes in a unit, with two digits behind the point.
pub open spec fn bytes_text(bytes: u64) -> Seq<char> {
    let v = in_double(bytes);
    let unit = unit_of(v);
    fixed(nearest(v * 100, unit_size(unit)), 2) + " "@ + unit_name(unit)
}

/// A number of bytes in a unit, with one digit behind the point; bare bytes
/// are told exactly.
pub open spec fn short_bytes_text(bytes: u64) -> Seq<char> {
    let v = in_double(bytes);
    let unit = unit_of(v);
    if unit == 0 {
        decimal(bytes as nat) + " B"@
    } else {
        fixed(nearest(v * 10, unit_size(unit)), 1) + " "@ + unit_name(unit)
    }
}

fn to_double(bytes: u64) -> (r: u128)
    ensures
        r == in_double(bytes),
        r <= 0x2_0000_0000_0000_0000,
{
    let n: u128 = bytes as u128;
    let limit: u128 = LIMIT as u128;
    let mut unit: u128 = 1;
    while limit * unit <= n
        invariant
            n == bytes,
            limit == LIMIT,
            1 <= unit <= 0x1000,
            in_double(bytes) == to_precision(n as nat, unit as nat),
        decreases n - unit,
    {
        unit = unit * 2;
    }
    let q: u128 = round(n, unit);
    proof {
        assert(q * unit <= n + unit) by (nonlinear_arith)
            requires
                q <= n / unit + 1,
                unit > 0,
        ;
    }
    q * unit
}

/// What a number of bytes is told in: its value in double precision, the size
/// and the name of its unit.
fn scale(bytes: u64) -> (r: (u128, u128, &'static str))
    ensures
        r.0 == in_double(bytes),
        r.1 == unit_size(unit_of(in_double(bytes))),
        r.2@ == unit_name(unit_of(in_double(bytes))),
        0 < r.1,
        r.0 <= 0x2_0000_0000_0000_0000,
{
    let v: u128 = to_double(bytes);
    if v >= 1024 * 1024 * 1024 * 1024 {
        (v, 1024 * 1024 * 1024 * 1024, "TiB")
    } else if v >= 1024 * 1024 * 1024 {
        (v, 1024 * 1024 * 1024, "GiB")
    } else if v >= 1024 * 1024 {
        (v, 1024 * 1024, "MiB")
    } else if v >= 1024 {
        (v, 1024, "KiB")
    } else {
        (v, 1, "B")
    }
}

/// A number of bytes in a unit, with two digits behind the point.
pub fn human_bytes(bytes: u64) -> (r: String)
    ensures
        r@ == bytes_text(bytes),
{
    let (v, size, name) = scale(bytes);
    let mut r = fixed_chars(round(v * 100, size), 2);
    extend_str(&mut r, " ");
    extend_str(&mut r, name);
    from_chars(&r)
}

/// A number of bytes in a unit, with one digit behind the point.
pub fn format_bytes_human(bytes: u64) -> (r: String)
    ensures
        r@ == short_bytes_text(bytes),
{
    let (v, size, name) = scale(bytes);
    if size == 1 {
        let mut r = decimal_chars(bytes as u128);
        extend_str(&mut r, " B");
        return from_chars(&r);
    }
    let mut r = fixed_chars(round(v * 10, size), 1);
    extend_str(&mut r, " ");
    extend_str(&mut r, name);
    from_chars(&r)
}

// ---------------------------------------------------------------------------
// Durations
// ---------------------------------------------------------------------------

/// A number with two digits at least.
pub open spec fn two_digits(n: nat) -> Seq<char> {
    zero_padded(decimal(n), 2)
}

/// A duration in days, hours, minutes and seconds, the three greatest that
/// count.
pub open spec fn duration_text(ns: i64) -> Seq<char> {
    if ns <= 0 {
        "00m 00s"@
    } else {
        let seconds = ns as nat / 1_000_000_000;
        let days = seconds / 86_400;
        let hours = (seconds % 86_400) / 3_600;
        let minutes = (seconds % 3_600) / 60;
        let secs = seconds % 60;
        if days > 0 {
            decimal(days) + "d "@ + two_digits(hours) + "h "@ + two_digits(minutes) + "m"@
        } else if hours > 0 {
            two_digits(hours) + "h "@ + two_digits(minutes) + "m "@ + two_digits(secs) + "s"@
        } else {
            two_digits(minutes) + "m "@ + two_digits(secs) + "s"@
        }
    }
}

fn two_digits_of(n: u64) -> (r: Vec<char>)
    ensures
        r@ == two_digits(n as nat),
{
    let d = decimal_chars(n as u128);
    pad_zeros(&d, 2)
}

pub fn human_duration_ns(ns: i64) -> (r: String)
    ensures
        r@ == duration_text(ns),
{
    if ns <= 0 {
        return "00m 00s".to_owned();
    }
    let seconds: u64 = (ns as u64) / 1_000_000_000;
    let days: u64 = seconds / 86_400;
    let hours: u64 = (seconds % 86_400) / 3_600;
    let minutes: u64 = (seconds % 3_600) / 60;
    let secs: u64 = seconds % 60;
    let mut r: Vec<char>;
    if days > 0 {
        r = decimal_chars(days as u128);
        extend_str(&mut r, "d ");
        extend(&mut r, &two_digits_of(hours));
        extend_str(&mut r, "h ");
        extend(&mut r, &two_digits_of(minutes));
        extend_str(&mut r, "m");
    } else if hours > 0 {
        r = two_digits_of(hours);
        extend_str(&mut r, "h ");
        extend(&mut r, &two_digits_of(minutes));
        extend_str(&mut r, "m ");
        extend(&mut r, &two_digits_of(secs));
        extend_str(&mut r, "s");
    } else {
        r = two_digits_of(minutes);
        extend_str(&mut r, "m ");
        extend(&mut r, &two_digits_of(secs));
        extend_str(&mut r, "s");
    }
    from_chars(&r)
}

// ---------------------------------------------------------------------------
// Rates
// ---------------------------------------------------------------------------

/// The nanoseconds of a second.
pub const SECOND_NS: u64 = 1_000_000_000;

/// Whether a rate can be told: something was copied, and time has passed.
pub open spec fn has_rate(bytes: u64, elapsed_ns: i64) -> bool {
    bytes > 0 && elapsed_ns > 0
}

/// The bytes per second, in double precision.
pub open spec fn rate_of(bytes: u64, elapsed_ns: i64) -> Scaled {
    quotient(
        of_nat(bytes as nat),
        quotient(of_nat(elapsed_ns as nat), of_nat(SECOND_NS as nat)),
    )
}

/// The bytes per second as a whole number, at most what 64 bits hold.
pub open spec fn whole_rate(bytes: u64, elapsed_ns: i64) -> nat {
    let n = whole(rate_of(bytes, elapsed_ns));
    if n <= u64::MAX {
        n
    } else {
        u64::MAX as nat
    }
}

/// The nanoseconds that the remaining bytes take at a rate, in double
/// precision, at most what 64 bits hold.
pub open spec fn eta_of(remaining: u64, rate: Scaled) -> nat {
    if remaining == 0 {
        0
    } else {
        let n = whole(
            product(quotient(of_nat(remaining as nat), rate), of_nat(SECOND_NS as nat)),
        );
        if n <= i64::MAX {
            n
        } else {
            i64::MAX as nat
        }
    }
}

/// The bytes per second, where they can be told.
pub fn rate_from_elapsed(bytes: u64, elapsed_ns: i64) -> (r: Option<Double>)
    ensures
        r is Some <==> has_rate(bytes, elapsed_ns),
        r is Some ==> r->0.wf() && r->0@ == rate_of(bytes, elapsed_ns) && -126 <= r->0.e <= 50,
{
    if bytes == 0 || elapsed_ns <= 0 {
        return None;
    }
    let elapsed = double_of(elapsed_ns as u64);
    let second = double_of(SECOND_NS);
    let seconds = divide(&elapsed, &second);
    let amount = double_of(bytes);
    proof {
        lemma2_to64();
        lemma2_to64_rest();
        lemma_exponent_most(elapsed_ns as nat, 1, 0, 63);
        lemma_exponent_least(elapsed_ns as nat, 1, 0, 0, 0);
        lemma_exponent_most(SECOND_NS as nat, 1, 0, 30);
        lemma_exponent_least(SECOND_NS as nat, 1, 0, 0, 0);
        lemma_exponent_most(bytes as nat, 1, 0, 64);
        lemma_exponent_least(bytes as nat, 1, 0, 0, 0);
        lemma_exponent_most(elapsed.m as nat, second.m as nat, elapsed.e - second.e, 1);
        lemma_exponent_least(elapsed.m as nat, second.m as nat, elapsed.e - second.e, 0, 1);
        lemma_exponent_most(amount.m as nat, seconds.m as nat, amount.e - seconds.e, 1);
        lemma_exponent_least(amount.m as nat, seconds.m as nat, amount.e - seconds.e, 0, 1);
    }
    Some(divide(&amount, &seconds))
}

/// A rate, or that there is none.
pub open spec fn rate_text(bytes: u64, elapsed_ns: i64) -> Seq<char> {
    if has_rate(bytes, elapsed_ns) {
        bytes_text(whole_rate(bytes, elapsed_ns) as u64)
    } else {
        "n/a"@
    }
}

fn format_rate(bytes: u64, elapsed_ns: i64) -> (r: String)
    ensures
        r@ == rate_text(bytes, elapsed_ns),
{
    match rate_from_elapsed(bytes, elapsed_ns) {
        Some(rate) => human_bytes(to_whole(&rate, u64::MAX)),
        None => "n/a".to_owned(),
    }
}

// ---------------------------------------------------------------------------
// Lines
// ---------------------------------------------------------------------------

/// How far a copy run has come.
#[derive(Clone, Copy, Debug, PartialEq, Eq, Structural)]
pub struct CopyProgressSnapshot {
    pub planned_files: usize,
    pub planned_bytes: u64,
    pub completed_files: usize,
    pub copied_files: usize,
    pub skipped_existing: usize,
    pub skipped_conflict: usize,
    pub overwritten_files: usize,
    pub missing_source: usize,
    pub failed_files: usize,
    pub copied_bytes: u64,
    pub elapsed_ns: i64,
}

/// What a copy run did.
#[derive(Debug)]
pub struct CopyExecutionSummary {
    pub mode: String,
    pub dry_run: bool,
    pub overwrite: bool,
    pub left_label: String,
    pub right_label: String,
    pub planned_files: usize,
    pub copied_files: usize,
    pub skipped_existing: usize,
    pub skipped_conflict: usize,
    pub overwritten_files: usize,
    pub missing_source: usize,
    pub failed_files: usize,
    pub copied_bytes: u64,
    pub deleted_files: usize,
    pub deleted_bytes: u64,
}

/// The bytes that are still to be copied.
pub open spec fn remaining_bytes(s: CopyProgressSnapshot) -> u64 {
    if s.planned_bytes > s.copied_bytes {
        (s.planned_bytes - s.copied_bytes) as u64
    } else {
        0
    }
}

impl CopyProgressSnapshot {
    /// The nanoseconds that are left, where a rate can be told.
    pub fn eta_ns(&self) -> (r: Option<i64>)
        ensures
            r is Some <==> has_rate(self.copied_bytes, self.elapsed_ns),
            r is Some ==> r->0 == eta_of(
                remaining_bytes(*self),
                rate_of(self.copied_bytes, self.elapsed_ns),
            ),
    {
        match rate_from_elapsed(self.copied_bytes, self.elapsed_ns) {
            Some(rate) => {
                let remaining: u64 = if self.planned_bytes > self.copied_bytes {
                    self.planned_bytes - self.copied_bytes
                } else {
                    0
                };
                if remaining == 0 {
                    return Some(0);
                }
                let amount = double_of(remaining);
                let seconds = divide(&amount, &rate);
                let second = double_of(SECOND_NS);
                let ns = multiply(&seconds, &second);
                Some(to_whole(&ns, i64::MAX as u64) as i64)
            },
            None => None,
        }
    }
}

/// The time that is left, or that it cannot be told.
pub open spec fn eta_text(s: CopyProgressSnapshot) -> Seq<char> {
    if has_rate(s.copied_bytes, s.elapsed_ns) {
        duration_text(eta_of(remaining_bytes(s), rate_of(s.copied_bytes, s.elapsed_ns)) as i64)
    } else {
        "n/a"@
    }
}

/// `true` or `false`.
pub open spec fn bool_text(b: bool) -> Seq<char> {
    if b {
        "true"@
    } else {
        "false"@
    }
}

fn push_bool(out: &mut Vec<char>, b: bool)
    ensures
        final(out)@ == old(out)@ + bool_text(b),
{
    if b {
        extend_str(out, "true");
    } else {
        extend_str(out, "false");
    }
}

fn push_count(out: &mut Vec<char>, n: usize)
    ensures
        final(out)@ == old(out)@ + decimal(n as nat),
{
    let d = decimal_chars(n as u128);
    extend(out, &d);
}

/// The line at the start of a copy run.
pub open spec fn start_line(
    mode: Seq<char>,
    planned_files: usize,
    planned_bytes: u64,
    dry_run: bool,
    overwrite: bool,
) -> Seq<char> {
    "[copy start] mode="@ + mode + " files="@ + decimal(planned_files as nat) + " bytes="@
        + bytes_text(planned_bytes) + " dry_run="@ + bool_text(dry_run) + " overwrite="@
        + bool_text(overwrite)
}

pub fn format_start_line(
    mode: &str,
    planned_files: usize,
    planned_bytes: u64,
    dry_run: bool,
    overwrite: bool,
) -> (r: String)
    ensures
        r@ == start_line(mode@, planned_files, planned_bytes, dry_run, overwrite),
{
    let mut out = to_chars("[copy start] mode=");
    extend_str(&mut out, mode);
    extend_str(&mut out, " files=");
    push_count(&mut out, planned_files);
    extend_str(&mut out, " bytes=");
    extend_str(&mut out, human_bytes(planned_bytes).as_str());
    extend_str(&mut out, " dry_run=");
    push_bool(&mut out, dry_run);
    extend_str(&mut out, " overwrite=");
    push_bool(&mut out, overwrite);
    from_chars(&out)
}

/// The line that tells how far a copy run has come.
pub open spec fn progress_line(s: CopyProgressSnapshot) -> Seq<char> {
    "[copy progress] "@ + decimal(s.completed_files as nat) + "/"@ + decimal(
        s.planned_files as nat,
    ) + " files | copied="@ + bytes_text(s.copied_bytes) + " | rate="@ + rate_text(
        s.copied_bytes,
        s.elapsed_ns,
    ) + "/s | eta="@ + eta_text(s) + " | skipped="@ + decimal(s.skipped_existing as nat)
        + " conflict="@ + decimal(s.skipped_conflict as nat) + " missing="@ + decimal(
        s.missing_source as nat,
    ) + " failed="@ + decimal(s.failed_files as nat)
}

pub fn format_progress_line(snapshot: &CopyProgressSnapshot) -> (r: String)
    ensures
        r@ == progress_line(*snapshot),
{
    let s = snapshot;
    let rate = format_rate(s.copied_bytes, s.elapsed_ns);
    let eta = match s.eta_ns() {
        Some(ns) => human_duration_ns(ns),
        None => "n/a".to_owned(),
    };
    let mut out = to_chars("[copy progress] ");
    push_count(&mut out, s.completed_files);
    extend_str(&mut out, "/");
    push_count(&mut out, s.planned_files);
    extend_str(&mut out, " files | copied=");
    extend_str(&mut out, human_bytes(s.copied_bytes).as_str());
    extend_str(&mut out, " | rate=");
    extend_str(&mut out, rate.as_str());
    extend_str(&mut out, "/s | eta=");
    extend_str(&mut out, eta.as_str());
    extend_str(&mut out, " | skipped=");
    push_count(&mut out, s.skipped_existing);
    extend_str(&mut out, " conflict=");
    push_count(&mut out, s.skipped_conflict);
    extend_str(&mut out, " missing=");
    push_count(&mut out, s.missing_source);
    extend_str(&mut out, " failed=");
    push_count(&mut out, s.failed_files);
    from_chars(&out)
}

/// The line that tells what a copy run did.
pub open spec fn summary_line(s: CopyExecutionSummary, elapsed_ns: i64) -> Seq<char> {
    "[copy summary] mode="@ + s.mode@ + " dry_run="@ + bool_text(s.dry_run) + " overwrite="@
        + bool_text(s.overwrite) + " files="@ + decimal(s.copied_files as nat) + "/"@ + decimal(
        s.planned_files as nat,
    ) + " copied="@ + bytes_text(s.copied_bytes) + " skipped="@ + decimal(
        s.skipped_existing as nat,
    ) + " conflict="@ + decimal(s.skipped_conflict as nat) + " overwritten="@ + decimal(
        s.overwritten_files as nat,
    ) + " missing="@ + decimal(s.missing_source as nat) + " failed="@ + decimal(
        s.failed_files as nat,
    ) + " elapsed="@ + duration_text(elapsed_ns) + " rate="@ + rate_text(
        s.copied_bytes,
        elapsed_ns,
    ) + "/s"@
}

pub fn format_summary_line(summary: &CopyExecutionSummary, elapsed_ns: i64) -> (r: String)
    ensures
        r@ == summary_line(*summary, elapsed_ns),
{
    let s = summary;
    let mut out = to_chars("[copy summary] mode=");
    extend_str(&mut out, s.mode.as_str());
    extend_str(&mut out, " dry_run=");
    push_bool(&mut out, s.dry_run);
    extend_str(&mut out, " overwrite=");
    push_bool(&mut out, s.overwrite);
    extend_str(&mut out, " files=");
    push_count(&mut out, s.copied_files);
    extend_str(&mut out, "/");
    push_count(&mut out, s.planned_files);
    extend_str(&mut out, " copied=");
    extend_str(&mut out, human_bytes(s.copied_bytes).as_str());
    extend_str(&mut out, " skipped=");
    push_count(&mut out, s.skipped_existing);
    extend_str(&mut out, " conflict=");
    push_count(&mut out, s.skipped_conflict);
    extend_str(&mut out, " overwritten=");
    push_count(&mut out, s.overwritten_files);
    extend_str(&mut out, " missing=");
    push_count(&mut out, s.missing_source);
    extend_str(&mut out, " failed=");
    push_count(&mut out, s.failed_files);
    extend_str(&mut out, " elapsed=");
    extend_str(&mut out, human_duration_ns(elapsed_ns).as_str());
    extend_str(&mut out, " rate=");
    extend_str(&mut out, format_rate(s.copied_bytes, elapsed_ns).as_str());
    extend_str(&mut out, "/s");
    from_chars(&out)
}

} // verus!
