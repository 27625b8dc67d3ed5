//! Laws of samples, of stored profiles, of backups and of stages.

use crate::backup::{
    backup_step, look_of, BackupFacts, BackupLook, BackupStep, MoveOutcome, OTHER_DEVICE,
};
use crate::binary_diff::{SHARE_WHOLE, SIMILARITY_WHOLE};
use crate::filter::lemma_filter_keeps;
use crate::fingerprint::{DESCRIPTOR_MAX_KEY_TOKEN_LEN, DESCRIPTOR_MIN_TOKEN_LEN};
use crate::fnv::{
    fnv, fnv_from, is_sample_offset, law_hash_in_parts, little_endian, sample_length,
    samples_signature, samples_state, Sample, MAX_SAMPLED_BYTES,
};
use crate::merge::KEEP_BOTH_NAMES;
use crate::number::{decimal, hex};
use crate::profile_table::{
    added_columns, lacking, layout_of, stored_profile, ProfileLayout, StoredProfile,
};
use crate::progress::SECOND_NS;
use crate::staging::{stage_name, step_behind, StageAttempt, StageStep};
use crate::status::MINUTE_NS;
use crate::text::opt_text;
use vstd::prelude::*;

verus! {

// ---------------------------------------------------------------------------
// Samples
// ---------------------------------------------------------------------------

/// The hash of nothing is its offset basis, and each byte is mixed in by an
/// exclusive or and a product with its prime, modulo two to the power of 64.
pub proof fn law_hash_mixes_each_byte(bytes: Seq<u8>, state: u64, byte: u8)
    ensures
        fnv(Seq::empty()) == 0xcbf29ce484222325,
        fnv_from(state, bytes.push(byte)) == ((fnv_from(state, bytes) ^ (byte as u64))
            * 0x100000001b3) % 0x1_0000_0000_0000_0000,
{
    assert(bytes.push(byte).drop_last() =~= bytes);
}

/// A file is sampled at its start, and at its end so that the last sample ends
/// with the file; a sample is 256 bytes long, or as long as the file.
pub proof fn law_samples_reach_both_ends(size: u64)
    requires
        size > 0,
    ensures
        is_sample_offset(size, 0),
        size >= 256 ==> sample_length(size) == 256,
        size < 256 ==> sample_length(size) == size,
        size > 1 ==> is_sample_offset(size, (size - sample_length(size)) as u64),
        size > 1 ==> is_sample_offset(size, (size / 3) as u64),
        size > 1 && 2 * size <= u64::MAX ==> is_sample_offset(size, (2 * size / 3) as u64),
{
}

/// Nothing else of a file is sampled, and no sample starts behind its end.
pub proof fn law_samples_lie_in_the_file(size: u64, offset: u64)
    requires
        size > 0,
        is_sample_offset(size, offset),
    ensures
        offset < size,
        offset == 0 || offset + sample_length(size) == size || 3 * offset <= size < 3 * offset + 3
            || 3 * offset <= 2 * size < 3 * offset + 3,
{
}

/// The bytes of a number, the least first, make up the number.
pub proof fn law_bytes_of_a_number(n: u64)
    ensures
        little_endian(n).len() == 8,
        ({
            let b = little_endian(n);
            n == b[0] + 0x100 * b[1] + 0x1_0000 * b[2] + 0x100_0000 * b[3] + 0x1_0000_0000 * b[4]
                + 0x100_0000_0000 * b[5] + 0x1_0000_0000_0000 * b[6] + 0x100_0000_0000_0000 * b[7]
        }),
{
    let b = little_endian(n);
    let m = n as int;
    assert(b[0] == m % 256);
    assert(b[1] == m / 256 % 256);
    assert(b[2] == m / 65536 % 256);
    assert(b[3] == m / 16777216 % 256);
    assert(b[4] == m / 4294967296 % 256);
    assert(b[5] == m / 1099511627776 % 256);
    assert(b[6] == m / 281474976710656 % 256);
    assert(b[7] == m / 72057594037927936 % 256);
    assert(m / 65536 == m / 256 / 256);
    assert(m / 16777216 == m / 65536 / 256);
    assert(m / 4294967296 == m / 16777216 / 256);
    assert(m / 1099511627776 == m / 4294967296 / 256);
    assert(m / 281474976710656 == m / 1099511627776 / 256);
    assert(m / 72057594037927936 == m / 281474976710656 / 256);
    assert(m / 72057594037927936 < 256);
}

/// A sample takes part in the signature with its offset and its bytes; one of
/// which nothing was read takes no part. Without any there is no signature.
pub proof fn law_samples_take_part(samples: Seq<Sample>, s: Sample)
    ensures
        s.bytes@.len() == 0 ==> samples_state(samples.push(s)) == samples_state(samples),
        s.bytes@.len() > 0 ==> samples_state(samples.push(s)) == fnv_from(
            samples_state(samples),
            little_endian(s.offset) + s.bytes@,
        ),
        s.bytes@.len() > 0 ==> samples_signature(samples.push(s)) is Some,
        samples_signature(Seq::empty()) is None,
{
    assert(samples.push(s).drop_last() =~= samples);
    if s.bytes@.len() > 0 {
        assert(samples.push(s)[samples.len() as int] == s);
        law_hash_in_parts(samples_state(samples), little_endian(s.offset), s.bytes@);
    }
}

// ---------------------------------------------------------------------------
// Stored profiles
// ---------------------------------------------------------------------------

/// A table lacks of the six columns that were added those that it has not.
pub proof fn law_columns_that_were_added(columns: Seq<Seq<char>>, c: Seq<char>)
    ensures
        lacking(columns).contains(c) <==> !columns.contains(c) && (c == "language"@ || c
            == "size_class"@ || c == "binary_signature"@ || c == "binary_descriptor"@ || c
            == "text_signature"@ || c == "archive_signature"@),
{
    let all = added_columns();
    assert(all[0] == "language"@);
    assert(all[1] == "size_class"@);
    assert(all[2] == "binary_signature"@);
    assert(all[3] == "binary_descriptor"@);
    assert(all[4] == "text_signature"@);
    assert(all[5] == "archive_signature"@);
    lemma_filter_keeps(all, |x: Seq<char>| !columns.contains(x), c);
}

/// What a table tells goes by the columns that it has: without the classes
/// nothing but the names, without a signature the classes, and without the
/// descriptor all but that.
pub proof fn law_columns_decide_what_is_told(columns: Seq<Seq<char>>)
    ensures
        !columns.contains("language"@) || !columns.contains("size_class"@) <==> layout_of(columns)
            == ProfileLayout::Bare,
        layout_of(columns) == ProfileLayout::Full ==> columns.contains("binary_descriptor"@)
            && columns.contains("binary_signature"@) && columns.contains("text_signature"@)
            && columns.contains("archive_signature"@),
        layout_of(columns) == ProfileLayout::WithoutDescriptor ==> !columns.contains(
            "binary_descriptor"@,
        ) && columns.contains("binary_signature"@) && columns.contains("text_signature"@)
            && columns.contains("archive_signature"@),
        layout_of(columns) == ProfileLayout::WithoutSignatures ==> !columns.contains(
            "binary_signature"@,
        ) || !columns.contains("text_signature"@) || !columns.contains("archive_signature"@),
{
}

/// A profile that is read back tells what was stored, as far as the table has
/// it; a language that is not known is told as such, and a size as large.
pub proof fn law_stored_profile_is_read_back(s: StoredProfile, layout: ProfileLayout)
    ensures
        ({
            let p = stored_profile(s, layout);
            &&& p.normalized_name == s.normalized_name@
            &&& p.normalized_folder == s.normalized_folder@
            &&& p.is_binary <==> s.is_binary != 0
            &&& p.is_archive <==> s.is_archive != 0
            &&& p.archive_family == opt_text(s.archive_family)
            &&& s.ext matches Some(e) ==> p.ext == e@
            &&& s.ext is None ==> p.ext.len() == 0
            &&& layout == ProfileLayout::Bare || s.language is None ==> p.language == "unknown"@
            &&& layout == ProfileLayout::Bare || s.size_class is None ==> p.size_class == "large"@
            &&& layout != ProfileLayout::Bare ==> (s.language matches Some(t) ==> p.language == t@)
            &&& layout != ProfileLayout::Bare ==> (s.size_class matches Some(t) ==> p.size_class
                == t@)
            &&& layout == ProfileLayout::Full ==> p.binary_descriptor == opt_text(
                s.binary_descriptor,
            )
            &&& layout != ProfileLayout::Full ==> p.binary_descriptor is None
            &&& layout == ProfileLayout::Full || layout == ProfileLayout::WithoutDescriptor
                ==> p.binary_signature == opt_text(s.binary_signature) && p.text_signature
                == opt_text(s.text_signature) && p.archive_signature == opt_text(
                s.archive_signature,
            )
            &&& layout == ProfileLayout::WithoutSignatures || layout == ProfileLayout::Bare
                ==> p.binary_signature is None && p.text_signature is None
                    && p.archive_signature is None
        }),
{
}

// ---------------------------------------------------------------------------
// Backups and stages
// ---------------------------------------------------------------------------

/// What stands in the place of a backup is a tree only where it is a directory
/// itself: a link to one is removed as a link.
pub proof fn law_what_stands_at_a_backup(exists: bool, is_dir: bool, is_link: bool)
    ensures
        look_of(exists, is_dir, is_link) == BackupLook::Nothing <==> !exists,
        look_of(exists, is_dir, is_link) == BackupLook::Tree <==> exists && is_dir && !is_link,
{
}

/// What stands in the way of a backup is removed as what it is.
pub proof fn law_backup_clears_what_stands_there(f: BackupFacts)
    requires
        f.parent_made,
        !f.cleared,
    ensures
        f.at_backup == Some(BackupLook::Tree) ==> backup_step(f) == BackupStep::ClearTree,
        f.at_backup == Some(BackupLook::Single) ==> backup_step(f) == BackupStep::ClearFile,
        f.at_backup == Some(BackupLook::Nothing) && f.moved is None ==> backup_step(f)
            == BackupStep::Move,
{
}

/// An entry that cannot be moved to another device is copied, a link as a link;
/// any other fault in moving it is told.
pub proof fn law_backup_across_devices(f: BackupFacts)
    requires
        f.parent_made,
        f.at_backup == Some(BackupLook::Nothing) || f.at_backup is Some && f.cleared,
    ensures
        f.moved == Some(MoveOutcome::Moved) ==> backup_step(f) == BackupStep::Done,
        f.moved == Some(MoveOutcome::Failed) ==> backup_step(f) == BackupStep::Failed,
        f.moved == Some(MoveOutcome::OtherDevice) && f.entry_is_link is None ==> backup_step(f)
            == BackupStep::LookAtEntry,
        f.moved == Some(MoveOutcome::OtherDevice) && f.entry_is_link == Some(true) && !f.copied
            ==> backup_step(f) == BackupStep::CopyLink,
        f.moved == Some(MoveOutcome::OtherDevice) && f.entry_is_link == Some(false) && !f.copied
            ==> backup_step(f) == BackupStep::CopyFile,
        f.moved == Some(MoveOutcome::OtherDevice) && f.entry_is_link is Some && f.copied
            && !f.removed ==> backup_step(f) == BackupStep::RemoveEntry,
{
}

/// A stage is named by the process, the run and its number, and stands hidden
/// beside its destination.
pub proof fn law_name_of_a_stage(pid: u32, nonce: u128, number: u64)
    ensures
        stage_name(pid, nonce, number) == ".nightindex-copy-p"@ + decimal(pid as nat) + "-"@ + hex(
            nonce as nat,
        ) + "-"@ + decimal(number as nat),
        stage_name(pid, nonce, number)[0] == '.',
{
    reveal_strlit(".nightindex-copy-p");
}

/// A stage that could be made is used; one that was there already is tried again
/// under another name, 1024 times in all, and any other fault is told.
pub proof fn law_stages_are_tried(attempt: u32)
    ensures
        step_behind(attempt, StageAttempt::Created) == StageStep::Use,
        step_behind(attempt, StageAttempt::Failed) == StageStep::Fail,
        attempt < 1024 ==> step_behind(attempt, StageAttempt::AlreadyExists) == StageStep::Retry,
        attempt >= 1024 ==> step_behind(attempt, StageAttempt::AlreadyExists)
            == StageStep::Exhausted,
{
}

/// The limits that files, names and texts are held to: a minute and a second in
/// nanoseconds, the fault of the system for another device, the names that are
/// tried beside a path, the bytes of a file that is sampled, and the bytes of a
/// token and of a key.
pub proof fn law_limits()
    ensures
        MINUTE_NS == 60 * SECOND_NS,
        SECOND_NS == 1_000_000_000,
        OTHER_DEVICE == 18,
        KEEP_BOTH_NAMES == 10_000,
        MAX_SAMPLED_BYTES == 64 * 1024 * 1024,
        DESCRIPTOR_MIN_TOKEN_LEN == 2,
        DESCRIPTOR_MAX_KEY_TOKEN_LEN == 32,
        SIMILARITY_WHOLE == 100 * SHARE_WHOLE,
        SHARE_WHOLE == 1_000_000_000_000_000_000,
{
}

} // verus!
