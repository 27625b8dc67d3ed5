//! How an index is doing: its counts, its copies and its cache.

use crate::cache::{share, share_of};
use crate::double::Double;
use crate::progress::{rate_from_elapsed, rate_of};
use crate::ratio::Ratio;
use crate::resume::{at_least_zero, count_of};
use crate::text::{from_chars, to_chars};
use vstd::prelude::*;

verus! {

#[derive(Debug)]
pub struct StatusReport {
    pub report_schema: String,
    pub report_version: u32,
    pub labels: usize,
    pub resume_sessions: usize,
    pub recent_copy_runs: usize,
    pub signature_cache_rows: usize,
    pub virtual_archive_member_rows: usize,
    pub latest_bytes_per_second: Option<Double>,
}

/// The counts that an index gives.
#[derive(Clone, Copy, Debug, PartialEq, Eq, Structural)]
pub struct StatusCounts {
    pub labels: i64,
    pub resume_sessions: i64,
    pub recent_copy_runs: i64,
    pub signature_cache_rows: i64,
    pub virtual_archive_member_rows: i64,
}

/// The nanoseconds of a minute.
pub const MINUTE_NS: i64 = 60_000_000_000;

/// The minutes that count as recent: at least one.
pub open spec fn recent_minutes(minutes: i64) -> int {
    if minutes < 1 {
        1
    } else {
        minutes as int
    }
}

/// Since when copies count as recent.
pub fn recent_since(now_ns: i64, minutes: i64) -> (r: i64)
    requires
        recent_minutes(minutes) * MINUTE_NS <= i64::MAX,
        now_ns - recent_minutes(minutes) * MINUTE_NS >= i64::MIN,
    ensures
        r == now_ns - recent_minutes(minutes) * MINUTE_NS,
{
    let minutes: i64 = if minutes < 1 { 1 } else { minutes };
    proof {
        assert(minutes * MINUTE_NS >= 0) by (nonlinear_arith)
            requires
                minutes >= 1,
                MINUTE_NS >= 0,
        ;
    }
    now_ns - minutes * MINUTE_NS
}

/// The bytes and the nanoseconds of a copy, where both tell something.
pub open spec fn tells_rate(latest: Option<(i64, i64)>) -> bool {
    latest matches Some((bytes, ns)) && bytes > 0 && ns > 0
}

/// How an index is doing.
pub fn build_status(counts: &StatusCounts, latest: Option<(i64, i64)>) -> (r: StatusReport)
    requires
        counts.labels <= usize::MAX,
        counts.resume_sessions <= usize::MAX,
        counts.recent_copy_runs <= usize::MAX,
        counts.signature_cache_rows <= usize::MAX,
        counts.virtual_archive_member_rows <= usize::MAX,
    ensures
        r.report_schema@ == "nightindex.status"@,
        r.report_version == 1,
        r.labels == at_least_zero(counts.labels),
        r.resume_sessions == at_least_zero(counts.resume_sessions),
        r.recent_copy_runs == at_least_zero(counts.recent_copy_runs),
        r.signature_cache_rows == at_least_zero(counts.signature_cache_rows),
        r.virtual_archive_member_rows == at_least_zero(counts.virtual_archive_member_rows),
        r.latest_bytes_per_second is Some <==> tells_rate(latest),
        r.latest_bytes_per_second matches Some(x) ==> x.wf() && x@ == rate_of(
            (latest->0).0 as u64,
            (latest->0).1,
        ),
{
    let latest_bytes_per_second = match latest {
        Some((bytes, ns)) => if bytes <= 0 {
            None
        } else {
            rate_from_elapsed(bytes as u64, ns)
        },
        None => None,
    };
    StatusReport {
        report_schema: from_chars(&to_chars("nightindex.status")),
        report_version: 1,
        labels: count_of(counts.labels),
        resume_sessions: count_of(counts.resume_sessions),
        recent_copy_runs: count_of(counts.recent_copy_runs),
        signature_cache_rows: count_of(counts.signature_cache_rows),
        virtual_archive_member_rows: count_of(counts.virtual_archive_member_rows),
        latest_bytes_per_second,
    }
}

/// How well a label's files are known.
#[derive(Debug)]
pub struct InspectCacheLabelRow {
    pub label: String,
    pub files: usize,
    pub profiles: usize,
    pub profile_coverage_ratio: Ratio,
    pub with_binary_signature: usize,
    pub with_binary_descriptor: usize,
    pub with_text_signature: usize,
    pub with_archive_signature: usize,
}

/// The counts that an index gives of a label.
#[derive(Clone, Copy, Debug, PartialEq, Eq, Structural)]
pub struct LabelCounts {
    pub files: i64,
    pub profiles: i64,
    pub with_binary_signature: i64,
    pub with_binary_descriptor: i64,
    pub with_text_signature: i64,
    pub with_archive_signature: i64,
}

/// How well a label's files are known.
pub fn build_label_row(label: &str, counts: &LabelCounts) -> (r: InspectCacheLabelRow)
    requires
        counts.files <= usize::MAX,
        counts.profiles <= usize::MAX,
        counts.with_binary_signature <= usize::MAX,
        counts.with_binary_descriptor <= usize::MAX,
        counts.with_text_signature <= usize::MAX,
        counts.with_archive_signature <= usize::MAX,
    ensures
        r.label@ == label@,
        r.files == at_least_zero(counts.files),
        r.profiles == at_least_zero(counts.profiles),
        r.profile_coverage_ratio == share(r.profiles, r.files),
        r.with_binary_signature == at_least_zero(counts.with_binary_signature),
        r.with_binary_descriptor == at_least_zero(counts.with_binary_descriptor),
        r.with_text_signature == at_least_zero(counts.with_text_signature),
        r.with_archive_signature == at_least_zero(counts.with_archive_signature),
{
    let files: usize = count_of(counts.files);
    let profiles: usize = count_of(counts.profiles);
    InspectCacheLabelRow {
        label: from_chars(&to_chars(label)),
        files,
        profiles,
        profile_coverage_ratio: share_of(profiles, files),
        with_binary_signature: count_of(counts.with_binary_signature),
        with_binary_descriptor: count_of(counts.with_binary_descriptor),
        with_text_signature: count_of(counts.with_text_signature),
        with_archive_signature: count_of(counts.with_archive_signature),
    }
}

/// What an index's caches hold, and how well the files of its labels are known.
#[derive(Debug)]
pub struct InspectCacheReport {
    pub report_schema: String,
    pub report_version: u32,
    pub signature_cache_rows: usize,
    pub virtual_archive_member_rows: usize,
    pub labels: Vec<InspectCacheLabelRow>,
}

/// What an index's caches hold, with the rows of its labels.
pub fn build_inspect_report(
    signature_cache_rows: i64,
    virtual_archive_member_rows: i64,
    labels: Vec<InspectCacheLabelRow>,
) -> (r: InspectCacheReport)
    requires
        signature_cache_rows <= usize::MAX,
        virtual_archive_member_rows <= usize::MAX,
    ensures
        r.report_schema@ == "nightindex.inspect_cache"@,
        r.report_version == 1,
        r.signature_cache_rows == at_least_zero(signature_cache_rows),
        r.virtual_archive_member_rows == at_least_zero(virtual_archive_member_rows),
        r.labels == labels,
{
    InspectCacheReport {
        report_schema: from_chars(&to_chars("nightindex.inspect_cache")),
        report_version: 1,
        signature_cache_rows: count_of(signature_cache_rows),
        virtual_archive_member_rows: count_of(virtual_archive_member_rows),
        labels,
    }
}

} // verus!
