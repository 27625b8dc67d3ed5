//! The cache of file signatures: its keys, and how well it serves a tree.

use crate::fingerprint::FileFingerprintProfile;
use crate::hash::{blake3_hex, ContentHash};
use crate::number::{
    decimal, decimal_chars, decimal_int, decimal_int_chars, law_decimal_round_trip,
    lemma_decimal_int_injective,
};
use crate::ratio::Ratio;
use crate::record::FileRecord;
use crate::text::{from_chars, is_digit, opt_str};
use crate::textmap::TextMap;
use vstd::prelude::*;
use vstd::string::*;
use vstd::utf8::{encode_utf8, is_ascii_chars, is_ascii_chars_encode_utf8};

verus! {

// ---------------------------------------------------------------------------
// Keys
// ---------------------------------------------------------------------------

/// The bytes that a cache key is the hash of: what tells one version of a file
/// from another, with a zero byte behind each part but the last.
pub open spec fn key_bytes(
    kind: Seq<char>,
    rel_path: Seq<char>,
    file_type: Seq<char>,
    size: u64,
    mtime_ns: i64,
    fast_hash: Option<Seq<char>>,
) -> Seq<u8> {
    encode_utf8(kind) + seq![0u8] + encode_utf8(rel_path) + seq![0u8] + encode_utf8(file_type)
        + seq![0u8] + version_bytes(size, mtime_ns, fast_hash)
}

/// The part of the key that tells versions of one file apart.
pub open spec fn version_bytes(size: u64, mtime_ns: i64, fast_hash: Option<Seq<char>>) -> Seq<u8> {
    encode_utf8(decimal(size as nat)) + seq![0u8] + encode_utf8(decimal_int(mtime_ns as int))
        + seq![0u8] + (match fast_hash {
        Some(hash) => encode_utf8(hash),
        None => Seq::empty(),
    })
}

/// Takes in a part of a key, and the zero byte behind it.
fn take_part(hash: &mut ContentHash, s: &str)
    requires
        old(hash).wf(),
    ensures
        final(hash).wf(),
        final(hash)@ == old(hash)@ + encode_utf8(s@) + seq![0u8],
{
    hash.update(s.as_bytes());
    let zero: Vec<u8> = vec![0];
    hash.update(zero.as_slice());
    assert(zero@ =~= seq![0u8]);
}

/// The key under which what is known of a version of a file is kept.
pub fn file_signature_cache_key(
    kind: &str,
    rel_path: &str,
    file_type: &str,
    size: u64,
    mtime_ns: i64,
    fast_hash: Option<&str>,
) -> (r: String)
    ensures
        r@ == blake3_hex(
            key_bytes(kind@, rel_path@, file_type@, size, mtime_ns, opt_str(fast_hash)),
        ),
        r@.len() == 64,
{
    let mut hash = ContentHash::new();
    take_part(&mut hash, kind);
    take_part(&mut hash, rel_path);
    take_part(&mut hash, file_type);
    let size_text = decimal_chars(size as u128);
    let size_text = from_chars(&size_text);
    take_part(&mut hash, size_text.as_str());
    let time_text = decimal_int_chars(mtime_ns as i128);
    let time_text = from_chars(&time_text);
    take_part(&mut hash, time_text.as_str());
    match fast_hash {
        Some(content) => {
            hash.update(content.as_bytes());
        },
        None => {},
    }
    assert(hash@ =~= key_bytes(kind@, rel_path@, file_type@, size, mtime_ns, opt_str(fast_hash)));
    hash.finish()
}

/// Whether a text is made of digits and signs.
spec fn numeric(s: Seq<char>) -> bool {
    forall|i: int| 0 <= i < s.len() ==> is_digit(#[trigger] s[i]) || s[i] == '-'
}

proof fn lemma_numeric_bytes(s: Seq<char>)
    requires
        numeric(s),
    ensures
        encode_utf8(s).len() == s.len(),
        forall|i: int| 0 <= i < s.len() ==> #[trigger] encode_utf8(s)[i] == s[i] as u8,
        !encode_utf8(s).contains(0),
{
    assert(is_ascii_chars(s)) by {
        assert forall|i: int| 0 <= i < s.len() implies s[i] as nat <= 127 by {
            assert(is_digit(s[i]) || s[i] == '-');
        }
    }
    is_ascii_chars_encode_utf8(s);
    let b = encode_utf8(s);
    if b.contains(0) {
        let i = b.index_of(0);
        assert(b[i] == s[i] as u8);
        assert(is_digit(s[i]) || s[i] == '-');
    }
}

proof fn lemma_numeric_injective(a: Seq<char>, b: Seq<char>)
    requires
        numeric(a),
        numeric(b),
        encode_utf8(a) == encode_utf8(b),
    ensures
        a == b,
{
    lemma_numeric_bytes(a);
    lemma_numeric_bytes(b);
    assert forall|i: int| 0 <= i < a.len() implies a[i] == b[i] by {
        assert(encode_utf8(a)[i] == a[i] as u8);
        assert(encode_utf8(b)[i] == b[i] as u8);
        assert(is_digit(a[i]) || a[i] == '-');
        assert(is_digit(b[i]) || b[i] == '-');
    }
    assert(a =~= b);
}

/// What stands before the first zero byte, and what stands behind it.
proof fn lemma_first_zero(a: Seq<u8>, x: Seq<u8>, b: Seq<u8>, y: Seq<u8>)
    requires
        !a.contains(0),
        !b.contains(0),
        a + seq![0u8] + x == b + seq![0u8] + y,
    ensures
        a == b,
        x == y,
{
    let s = a + seq![0u8] + x;
    assert(s[a.len() as int] == 0);
    let t = b + seq![0u8] + y;
    assert(t[b.len() as int] == 0);
    if a.len() < b.len() {
        assert(t[a.len() as int] == b[a.len() as int]);
        assert(b.contains(b[a.len() as int]));
    } else if b.len() < a.len() {
        assert(s[b.len() as int] == a[b.len() as int]);
        assert(a.contains(a[b.len() as int]));
    }
    assert forall|i: int| 0 <= i < a.len() implies a[i] == b[i] by {
        assert(s[i] == a[i]);
        assert(t[i] == b[i]);
    }
    assert(a =~= b);
    assert(s.skip(a.len() as int + 1) =~= x);
    assert(t.skip(b.len() as int + 1) =~= y);
}

proof fn lemma_decimal_numeric(n: int)
    ensures
        numeric(decimal_int(n)),
        n >= 0 ==> numeric(decimal(n as nat)),
{
    let m = if n < 0 { -n } else { n };
    law_decimal_round_trip(m as nat);
    let d = decimal(m as nat);
    if n < 0 {
        assert forall|i: int| 0 <= i < decimal_int(n).len() implies is_digit(
            #[trigger] decimal_int(n)[i],
        ) || decimal_int(n)[i] == '-' by {
            if i > 0 {
                assert(decimal_int(n)[i] == d[i - 1]);
                assert(is_digit(d[i - 1]));
            }
        }
    }
}

/// The keys of two versions of one file are made of the same bytes only where
/// the size, the time and the hash are the same.
pub proof fn law_key_tells_versions_apart(
    kind: Seq<char>,
    rel_path: Seq<char>,
    file_type: Seq<char>,
    size1: u64,
    mtime1: i64,
    hash1: Option<Seq<char>>,
    size2: u64,
    mtime2: i64,
    hash2: Option<Seq<char>>,
)
    requires
        key_bytes(kind, rel_path, file_type, size1, mtime1, hash1) == key_bytes(
            kind,
            rel_path,
            file_type,
            size2,
            mtime2,
            hash2,
        ),
    ensures
        size1 == size2,
        mtime1 == mtime2,
        (match hash1 {
            Some(h) => encode_utf8(h),
            None => Seq::empty(),
        }) == (match hash2 {
            Some(h) => encode_utf8(h),
            None => Seq::empty(),
        }),
{
    let lead = encode_utf8(kind) + seq![0u8] + encode_utf8(rel_path) + seq![0u8] + encode_utf8(
        file_type,
    ) + seq![0u8];
    let v1 = version_bytes(size1, mtime1, hash1);
    let v2 = version_bytes(size2, mtime2, hash2);
    assert((lead + v1).skip(lead.len() as int) =~= v1);
    assert((lead + v2).skip(lead.len() as int) =~= v2);
    let h1 = match hash1 {
        Some(h) => encode_utf8(h),
        None => Seq::<u8>::empty(),
    };
    let h2 = match hash2 {
        Some(h) => encode_utf8(h),
        None => Seq::<u8>::empty(),
    };
    let s1 = encode_utf8(decimal(size1 as nat));
    let s2 = encode_utf8(decimal(size2 as nat));
    let m1 = encode_utf8(decimal_int(mtime1 as int));
    let m2 = encode_utf8(decimal_int(mtime2 as int));
    lemma_decimal_numeric(size1 as int);
    lemma_decimal_numeric(size2 as int);
    lemma_decimal_numeric(mtime1 as int);
    lemma_decimal_numeric(mtime2 as int);
    lemma_numeric_bytes(decimal(size1 as nat));
    lemma_numeric_bytes(decimal(size2 as nat));
    lemma_numeric_bytes(decimal_int(mtime1 as int));
    lemma_numeric_bytes(decimal_int(mtime2 as int));
    let r1 = m1 + seq![0u8] + h1;
    let r2 = m2 + seq![0u8] + h2;
    assert(v1 =~= s1 + seq![0u8] + r1);
    assert(v2 =~= s2 + seq![0u8] + r2);
    lemma_first_zero(s1, r1, s2, r2);
    lemma_first_zero(m1, h1, m2, h2);
    lemma_numeric_injective(decimal(size1 as nat), decimal(size2 as nat));
    law_decimal_round_trip(size1 as nat);
    law_decimal_round_trip(size2 as nat);
    lemma_numeric_injective(decimal_int(mtime1 as int), decimal_int(mtime2 as int));
    lemma_decimal_int_injective(mtime1 as int, mtime2 as int);
}

// ---------------------------------------------------------------------------
// Usage
// ---------------------------------------------------------------------------

/// How many rows of a tree have a profile.
#[derive(Clone, Copy, Debug, PartialEq, Eq, Structural)]
pub struct CacheCoverageMetrics {
    pub total_rows: usize,
    pub profile_rows: usize,
    pub coverage_ratio: Ratio,
}

/// How much the profiles of a tree tell.
#[derive(Clone, Copy, Debug, PartialEq, Eq, Structural)]
pub struct CacheDescriptorDensityMetrics {
    pub profiled_rows: usize,
    pub with_binary_descriptor: usize,
    pub with_text_signature: usize,
    pub with_archive_signature: usize,
    pub with_any_descriptor: usize,
    pub binary_descriptor_ratio: Ratio,
    pub text_signature_ratio: Ratio,
    pub archive_signature_ratio: Ratio,
    pub any_descriptor_ratio: Ratio,
}

#[derive(Clone, Copy, Debug, PartialEq, Eq, Structural)]
pub struct CacheUsageAnalytics {
    pub coverage: CacheCoverageMetrics,
    pub descriptor_density: CacheDescriptorDensityMetrics,
}

/// How well the cache serves a tree.
#[derive(Clone, Copy, Debug, PartialEq, Eq, Structural)]
pub struct CacheUsageCounters {
    pub hits: usize,
    pub misses: usize,
    pub analytics: CacheUsageAnalytics,
}

/// How well the cache serves both trees of a report.
#[derive(Clone, Copy, Debug, PartialEq, Eq, Structural)]
pub struct ReportCacheMetrics {
    pub left_profile_cache: CacheUsageCounters,
    pub right_profile_cache: CacheUsageCounters,
}

/// A part of a whole; nothing of nothing is zero.
pub open spec fn share(part: usize, whole: usize) -> Ratio {
    if whole == 0 {
        Ratio { num: 0, den: 1 }
    } else {
        Ratio { num: part as u128, den: whole as u128 }
    }
}

pub fn share_of(part: usize, whole: usize) -> (r: Ratio)
    ensures
        r == share(part, whole),
        r.wf(),
{
    if whole == 0 {
        Ratio { num: 0, den: 1 }
    } else {
        Ratio { num: part as u128, den: whole as u128 }
    }
}

/// What is counted of a row's profile.
#[derive(Clone, Copy, PartialEq, Eq, Structural)]
pub enum ProfileTrait {
    Present,
    BinaryDescriptor,
    TextSignature,
    ArchiveSignature,
    AnyDescriptor,
}

/// Whether an optional text says something.
pub open spec fn says(s: Option<String>) -> bool {
    s is Some && s->0@.len() > 0
}

/// Whether a row's profile has a trait.
pub open spec fn has_trait(
    row: FileRecord,
    profiles: Map<Seq<char>, FileFingerprintProfile>,
    t: ProfileTrait,
) -> bool {
    profiles.contains_key(row.rel_path@) && {
        let p = profiles[row.rel_path@];
        match t {
            ProfileTrait::Present => true,
            ProfileTrait::BinaryDescriptor => says(p.binary_descriptor),
            ProfileTrait::TextSignature => says(p.text_signature),
            ProfileTrait::ArchiveSignature => says(p.archive_signature),
            ProfileTrait::AnyDescriptor => says(p.binary_descriptor) || says(p.text_signature)
                || says(p.archive_signature),
        }
    }
}

/// The number of rows whose profile has a trait.
pub open spec fn count_trait(
    rows: Seq<FileRecord>,
    profiles: Map<Seq<char>, FileFingerprintProfile>,
    t: ProfileTrait,
) -> nat
    decreases rows.len(),
{
    if rows.len() == 0 {
        0
    } else {
        count_trait(rows.drop_last(), profiles, t) + (if has_trait(rows.last(), profiles, t) {
            1nat
        } else {
            0nat
        })
    }
}

/// Whether counters are those of the rows and profiles of a tree.
pub open spec fn counts_usage(
    c: CacheUsageCounters,
    rows: Seq<FileRecord>,
    profiles: Map<Seq<char>, FileFingerprintProfile>,
) -> bool {
    let d = c.analytics.descriptor_density;
    &&& c.hits == count_trait(rows, profiles, ProfileTrait::Present)
    &&& c.hits + c.misses == rows.len()
    &&& c.analytics.coverage.total_rows == rows.len()
    &&& c.analytics.coverage.profile_rows == c.hits
    &&& c.analytics.coverage.coverage_ratio == share(c.hits, c.analytics.coverage.total_rows)
    &&& d.profiled_rows == c.hits
    &&& d.with_binary_descriptor == count_trait(rows, profiles, ProfileTrait::BinaryDescriptor)
    &&& d.with_text_signature == count_trait(rows, profiles, ProfileTrait::TextSignature)
    &&& d.with_archive_signature == count_trait(rows, profiles, ProfileTrait::ArchiveSignature)
    &&& d.with_any_descriptor == count_trait(rows, profiles, ProfileTrait::AnyDescriptor)
    &&& d.binary_descriptor_ratio == share(d.with_binary_descriptor, c.hits)
    &&& d.text_signature_ratio == share(d.with_text_signature, c.hits)
    &&& d.archive_signature_ratio == share(d.with_archive_signature, c.hits)
    &&& d.any_descriptor_ratio == share(d.with_any_descriptor, c.hits)
}

fn text_says(s: &Option<String>) -> (r: bool)
    ensures
        r == says(*s),
{
    match s {
        Some(v) => !v.as_str().is_empty(),
        None => false,
    }
}

pub fn profile_cache_usage(
    rows: &Vec<FileRecord>,
    profiles: &TextMap<FileFingerprintProfile>,
) -> (r: CacheUsageCounters)
    requires
        profiles.wf(),
    ensures
        counts_usage(r, rows@, profiles@),
{
    let mut hits: usize = 0;
    let mut binary: usize = 0;
    let mut text: usize = 0;
    let mut archive: usize = 0;
    let mut any: usize = 0;
    let mut i: usize = 0;
    while i < rows.len()
        invariant
            profiles.wf(),
            i <= rows@.len(),
            hits == count_trait(rows@.take(i as int), profiles@, ProfileTrait::Present) <= i,
            binary == count_trait(
                rows@.take(i as int),
                profiles@,
                ProfileTrait::BinaryDescriptor,
            ) <= i,
            text == count_trait(rows@.take(i as int), profiles@, ProfileTrait::TextSignature) <= i,
            archive == count_trait(
                rows@.take(i as int),
                profiles@,
                ProfileTrait::ArchiveSignature,
            ) <= i,
            any == count_trait(rows@.take(i as int), profiles@, ProfileTrait::AnyDescriptor) <= i,
        decreases rows@.len() - i,
    {
        let row = &rows[i];
        proof {
            assert(rows@.take(i as int + 1).drop_last() =~= rows@.take(i as int));
            assert(rows@.take(i as int + 1).last() == *row);
        }
        match profiles.get(row.rel_path.as_str()) {
            Some(p) => {
                hits = hits + 1;
                let b = text_says(&p.binary_descriptor);
                let t = text_says(&p.text_signature);
                let a = text_says(&p.archive_signature);
                if b {
                    binary = binary + 1;
                }
                if t {
                    text = text + 1;
                }
                if a {
                    archive = archive + 1;
                }
                if b || t || a {
                    any = any + 1;
                }
            },
            None => {},
        }
        i = i + 1;
    }
    assert(rows@.take(i as int) =~= rows@);
    let total: usize = rows.len();
    CacheUsageCounters {
        hits,
        misses: total - hits,
        analytics: CacheUsageAnalytics {
            coverage: CacheCoverageMetrics {
                total_rows: total,
                profile_rows: hits,
                coverage_ratio: share_of(hits, total),
            },
            descriptor_density: CacheDescriptorDensityMetrics {
                profiled_rows: hits,
                with_binary_descriptor: binary,
                with_text_signature: text,
                with_archive_signature: archive,
                with_any_descriptor: any,
                binary_descriptor_ratio: share_of(binary, hits),
                text_signature_ratio: share_of(text, hits),
                archive_signature_ratio: share_of(archive, hits),
                any_descriptor_ratio: share_of(any, hits),
            },
        },
    }
}

/// The keys of two files are made of the same bytes only where the kinds, the
/// paths and the types are the same, as far as no zero byte stands in them.
pub proof fn law_key_tells_files_apart(
    kind1: Seq<char>,
    path1: Seq<char>,
    type1: Seq<char>,
    kind2: Seq<char>,
    path2: Seq<char>,
    type2: Seq<char>,
    size1: u64,
    mtime1: i64,
    hash1: Option<Seq<char>>,
    size2: u64,
    mtime2: i64,
    hash2: Option<Seq<char>>,
)
    requires
        !encode_utf8(kind1).contains(0) && !encode_utf8(kind2).contains(0),
        !encode_utf8(path1).contains(0) && !encode_utf8(path2).contains(0),
        !encode_utf8(type1).contains(0) && !encode_utf8(type2).contains(0),
        key_bytes(kind1, path1, type1, size1, mtime1, hash1) == key_bytes(
            kind2,
            path2,
            type2,
            size2,
            mtime2,
            hash2,
        ),
    ensures
        encode_utf8(kind1) == encode_utf8(kind2),
        encode_utf8(path1) == encode_utf8(path2),
        encode_utf8(type1) == encode_utf8(type2),
{
    let v1 = version_bytes(size1, mtime1, hash1);
    let v2 = version_bytes(size2, mtime2, hash2);
    let t1 = encode_utf8(type1) + seq![0u8] + v1;
    let t2 = encode_utf8(type2) + seq![0u8] + v2;
    let p1 = encode_utf8(path1) + seq![0u8] + t1;
    let p2 = encode_utf8(path2) + seq![0u8] + t2;
    assert(key_bytes(kind1, path1, type1, size1, mtime1, hash1) =~= encode_utf8(kind1) + seq![0u8]
        + p1);
    assert(key_bytes(kind2, path2, type2, size2, mtime2, hash2) =~= encode_utf8(kind2) + seq![0u8]
        + p2);
    lemma_first_zero(encode_utf8(kind1), p1, encode_utf8(kind2), p2);
    lemma_first_zero(encode_utf8(path1), t1, encode_utf8(path2), t2);
    lemma_first_zero(encode_utf8(type1), v1, encode_utf8(type2), v2);
}

} // verus!
