//! Laws of what is left out, chosen, planned and removed.

use crate::compare::{common_paths, lone_paths, same_paths};
use crate::copy_run::{CopyEventAction, CopyRun};
use crate::delete_run::{
    counts_as_deleted, delete_event, delete_note, delete_stop, sizes_of, step_of, targets,
    to_delete, DeleteOutcome, DeleteRunArgs, DeleteStep,
};
use crate::number::{decimal, law_decimal_round_trip};
use crate::pattern::{glob, pattern_matches, segment_matches, segments_match, PatternSpec};
use crate::plan::{
    age_at, chosen, item_of, law_plan_is_complete, left_out, total_size, wanted_items, CopyPlanItem,
};
use crate::policy::{
    age_of, age_parts, excluded, formats_for, has_noise, is_noise, is_walked, policy_fault,
    policy_path, subtree_depth, unit_seconds, within, AgeError, ExcludePolicy,
};
use crate::record::{
    has_path, lemma_last_index, paths_of, row_of, same_meta, sorted_paths, FileRecord,
};
use crate::text::{is_digit, opt_text, pieces, stripped, texts, CharClass};
use crate::textmap::lemma_sorted_set;
use vstd::prelude::*;

verus! {

// ---------------------------------------------------------------------------
// What is left out
// ---------------------------------------------------------------------------

/// A name of a cache, a bin, a version control system or the like.
pub open spec fn is_junk_name(name: Seq<char>) -> bool {
    ||| name == ".git"@ || name == ".svn"@
    ||| name == ".cache"@ || name == "tmp"@ || name == "temp"@ || name == "Temporary Items"@
    ||| name == ".Trash"@ || name == ".Trashes"@ || name == "$RECYCLE.BIN"@ || name == "$RECYCLE"@
    ||| name == "Recovered Files"@ || name == "System Volume Information"@
    ||| name == ".DS_Store"@ || name == "Desktop.ini"@ || name == "Thumbs.db"@
    ||| name == "Node_modules"@ || name == ".nobackup"@
}

/// A policy that is in force leaves out every path with such a name in it, at any
/// depth.
pub proof fn law_junk_is_left_out(path: Seq<char>, policy: ExcludePolicy, k: int)
    requires
        policy.enabled,
        policy_path(path).len() > 0,
        0 <= k < pieces(policy_path(path), CharClass::Is('/')).len(),
        is_junk_name(pieces(policy_path(path), CharClass::Is('/'))[k]),
    ensures
        excluded(path, policy),
{
    let segments = pieces(policy_path(path), CharClass::Is('/'));
    assert(is_noise(segments[k], texts(policy.folder_name_additions@), Seq::empty()));
}

/// Below a subtree for which a policy names folders these are left out.
pub proof fn law_subtree_names_are_left_out(
    path: Seq<char>,
    policy: ExcludePolicy,
    base: Seq<char>,
    k: int,
)
    requires
        policy.enabled,
        policy.subtree_overrides@.contains_key(base),
        base.len() > 0,
        policy_path(path) == base || (policy_path(path).len() > base.len()
            && policy_path(path).take(
            base.len() as int,
        ) == base && policy_path(path)[base.len() as int] == '/'),
        pieces(base, CharClass::Is('/')).len() <= k < pieces(
            policy_path(path),
            CharClass::Is('/'),
        ).len(),
        texts(policy.subtree_overrides@[base]@).contains(
            pieces(policy_path(path), CharClass::Is('/'))[k],
        ),
    ensures
        excluded(path, policy),
{
    let p = policy_path(path);
    let segments = pieces(p, CharClass::Is('/'));
    lemma_within_raw(p, base);
    assert(is_noise(
        segments[k],
        texts(policy.folder_name_additions@),
        texts(policy.subtree_overrides@[base]@),
    ));
    assert(has_noise(
        segments,
        subtree_depth(base) as int,
        texts(policy.folder_name_additions@),
        texts(policy.subtree_overrides@[base]@),
    ));
}

proof fn lemma_within_raw(path: Seq<char>, base: Seq<char>)
    ensures
        within(path, base) <==> path == base || (path.len() > base.len() && path.take(
            base.len() as int,
        ) == base && path[base.len() as int] == '/'),
{
    let lead = base + seq!['/'];
    let n = base.len() as int;
    if path.len() > n {
        if path.take(n) == base && path[n] == '/' {
            assert(path.subrange(0, n + 1) =~= lead);
        }
        if path.subrange(0, n + 1) == lead {
            assert(path.take(n) =~= base);
            assert(path[n] == path.subrange(0, n + 1)[n]);
        }
    }
}

/// Nothing else is left out: a path that is lies at or below one that the policy
/// names, or has a folder in it that is junk, that the policy adds, or that it
/// names for a subtree in which the path lies.
pub proof fn law_nothing_else_is_left_out(path: Seq<char>, policy: ExcludePolicy)
    requires
        excluded(path, policy),
    ensures
        policy.enabled,
        policy_path(path).len() > 0,
        ({
            let p = policy_path(path);
            let segments = pieces(p, CharClass::Is('/'));
            ||| exists|i: int|
                0 <= i < policy.directory_prefixes@.len() && within(
                    p,
                    (#[trigger] policy.directory_prefixes@[i])@,
                )
            ||| exists|k: int|
                0 <= k < segments.len() && (is_junk_name(#[trigger] segments[k]) || texts(
                    policy.folder_name_additions@,
                ).contains(segments[k]))
            ||| exists|base: Seq<char>, k: int|
                #![trigger policy.subtree_overrides@.contains_key(base), segments[k]]
                policy.subtree_overrides@.contains_key(base) && within(p, base) && (base.len() == 0
                    || pieces(base, CharClass::Is('/')).len() <= k) && 0 <= k < segments.len()
                    && texts(policy.subtree_overrides@[base]@).contains(segments[k])
        }),
{
    let p = policy_path(path);
    let segments = pieces(p, CharClass::Is('/'));
    let names = texts(policy.folder_name_additions@);
    if exists|i: int|
        0 <= i < policy.directory_prefixes@.len() && within(
            p,
            (#[trigger] policy.directory_prefixes@[i])@,
        ) {
    } else if has_noise(segments, 0, names, Seq::empty()) {
        let k = choose|k: int|
            0 <= k < segments.len() && is_noise(#[trigger] segments[k], names, Seq::empty());
        assert(is_junk_name(segments[k]) || names.contains(segments[k]));
    } else {
        let base = choose|base: Seq<char>|
            {
                &&& #[trigger] policy.subtree_overrides@.contains_key(base)
                &&& within(p, base)
                &&& has_noise(
                    segments,
                    subtree_depth(base) as int,
                    names,
                    texts(policy.subtree_overrides@[base]@),
                )
            };
        let here = texts(policy.subtree_overrides@[base]@);
        let k = choose|k: int|
            subtree_depth(base) <= k < segments.len() && is_noise(
                #[trigger] segments[k],
                names,
                here,
            );
        assert(is_junk_name(segments[k]) || names.contains(segments[k]) || here.contains(
            segments[k],
        ));
        assert(policy.subtree_overrides@.contains_key(base));
    }
}

/// To lie at or below a path is to be it, or to go on from it with a slash.
pub proof fn law_lies_at_or_below(path: Seq<char>, base: Seq<char>)
    ensures
        within(path, base) <==> path == base || (path.len() > base.len() && path.take(
            base.len() as int,
        ) == base && path[base.len() as int] == '/'),
{
    lemma_within_raw(path, base);
}

// ---------------------------------------------------------------------------
// Patterns
// ---------------------------------------------------------------------------

/// In the pattern of a name `*` takes any number of bytes.
pub proof fn law_star_takes_any(p: Seq<u8>, v: Seq<u8>)
    ensures
        glob(seq![42u8] + p, v) <==> exists|k: int| 0 <= k <= v.len()
            && glob(p, #[trigger] v.skip(k)),
{
    assert((seq![42u8] + p).drop_first() =~= p);
}

/// In the pattern of a name `?` takes one byte, and any other byte itself.
pub proof fn law_others_take_one(c: u8, p: Seq<u8>, v: Seq<u8>)
    requires
        c != 42,
    ensures
        glob(seq![c] + p, v) <==> v.len() > 0 && (c == 63 || v[0] == c) && glob(p, v.drop_first()),
        glob(Seq::empty(), v) <==> v.len() == 0,
{
    assert((seq![c] + p).drop_first() =~= p);
}

/// Without `**` the names of a path match those of a pattern one by one.
pub proof fn law_names_match_one_by_one(p: Seq<Seq<char>>, v: Seq<Seq<char>>)
    requires
        forall|i: int| 0 <= i < p.len() ==> #[trigger] p[i] != seq!['*', '*'],
    ensures
        segments_match(p, v) <==> p.len() == v.len() && forall|i: int|
            0 <= i < p.len() ==> segment_matches(#[trigger] p[i], v[i]),
    decreases p.len(),
{
    if p.len() > 0 {
        assert(p[0] != seq!['*', '*']);
        if v.len() > 0 {
            let a = p.drop_first();
            let b = v.drop_first();
            assert forall|i: int| 0 <= i < a.len() implies #[trigger] a[i] != seq!['*', '*'] by {
                assert(a[i] == p[i + 1]);
            }
            law_names_match_one_by_one(a, b);
            if segments_match(p, v) {
                assert forall|i: int| 0 <= i < p.len() implies segment_matches(
                    #[trigger] p[i],
                    v[i],
                ) by {
                    if i > 0 {
                        assert(segment_matches(a[i - 1], b[i - 1]));
                    }
                }
            }
            if p.len() == v.len() && forall|i: int|
                0 <= i < p.len() ==> segment_matches(#[trigger] p[i], v[i]) {
                assert forall|i: int| 0 <= i < a.len() implies segment_matches(
                    #[trigger] a[i],
                    b[i],
                ) by {
                    assert(segment_matches(p[i + 1], v[i + 1]));
                }
            }
        }
    }
}

/// `**` takes any number of names; at the end of a pattern it takes the rest.
pub proof fn law_double_star_takes_any(p: Seq<Seq<char>>, v: Seq<Seq<char>>)
    ensures
        segments_match(seq![seq!['*', '*']] + p, v) <==> p.len() == 0 || exists|k: int|
            0 <= k <= v.len() && segments_match(p, #[trigger] v.skip(k)),
{
    let all = seq![seq!['*', '*']] + p;
    assert(all.drop_first() =~= p);
    assert(all[0] == seq!['*', '*']);
}

/// A pattern without wildcards chooses its path and what lies below it; with a
/// slash at its end only what lies below.
pub proof fn law_plain_pattern(pattern: Seq<char>, dir_only: bool, path: Seq<char>)
    requires
        policy_path(pattern).len() > 0,
        policy_path(path).len() > 0,
        !policy_path(pattern).contains('*'),
        !policy_path(pattern).contains('?'),
    ensures
        ({
            let p = policy_path(pattern);
            let v = policy_path(path);
            pattern_matches((pattern, dir_only), path) <==> (v == p && !dir_only) || (v.len()
                > p.len() && v.take(p.len() as int) == p && v[p.len() as int] == '/')
        }),
{
    lemma_within_raw(policy_path(path), policy_path(pattern));
    let p = policy_path(pattern);
    let v = policy_path(path);
    if v.len() > p.len() && v.take(p.len() as int) == p && v[p.len() as int] == '/' {
        assert(v.subrange(0, p.len() as int + 1) =~= p + seq!['/']);
    }
}

/// A pattern with wildcards chooses the paths that match it name by name; with a
/// slash at its end what lies below those.
pub proof fn law_wild_pattern(pattern: Seq<char>, path: Seq<char>)
    requires
        policy_path(pattern).contains('*') || policy_path(pattern).contains('?'),
        policy_path(path).len() > 0,
    ensures
        ({
            let ps = pieces(policy_path(pattern), CharClass::Is('/'));
            let vs = pieces(policy_path(path), CharClass::Is('/'));
            &&& pattern_matches((pattern, false), path) <==> segments_match(ps, vs)
            &&& pattern_matches((pattern, true), path) <==> exists|n: int|
                1 <= n < vs.len() && #[trigger] segments_match(ps, vs.take(n))
        }),
{
}

/// An entry is chosen where one of the wanted patterns matches its path, or there
/// are none, and where none of the unwanted ones does.
pub proof fn law_chosen_by_patterns(
    item: CopyPlanItem,
    wanted: Seq<PatternSpec>,
    unwanted: Seq<PatternSpec>,
)
    ensures
        chosen(item, wanted, unwanted) <==> (wanted.len() == 0 || exists|i: int|
            0 <= i < wanted.len() && pattern_matches((#[trigger] wanted[i])@, item.rel_path@)) && (
        forall|i: int|
            0 <= i < unwanted.len() ==> !pattern_matches(
                (#[trigger] unwanted[i])@,
                item.rel_path@,
            )),
{
}

/// An entry is old enough to be passed over where more time than allowed lies
/// between its own and now; one of the future is new.
pub proof fn law_age_is_since_its_time(item: CopyPlanItem, now_ns: i64, max: i64)
    requires
        0 <= max < i64::MAX,
    ensures
        age_at(item, now_ns) <= max <==> now_ns - item.mtime_ns <= max,
        age_at(item, now_ns) >= 0,
{
}

// ---------------------------------------------------------------------------
// Ages
// ---------------------------------------------------------------------------

proof fn lemma_age(n: nat, unit: char)
    requires
        unit == 's' || unit == 'S' || unit == 'm' || unit == 'M' || unit == 'h' || unit == 'H'
            || unit == 'd' || unit == 'D',
    ensures
        stripped(decimal(n).push(unit)) == decimal(n).push(unit),
        stripped(decimal(n)) == decimal(n),
        decimal(n).push(unit).drop_last() == decimal(n),
        decimal(n).len() > 0,
        is_digit(decimal(n)[0]),
        is_digit(decimal(n).last()),
{
    law_decimal_round_trip(n);
    let d = decimal(n);
    assert(is_digit(d[0]));
    assert(is_digit(d[d.len() - 1]));
    assert(d.push(unit).drop_last() =~= d);
}

proof fn lemma_age_in(n: nat, unit: char, seconds: nat)
    requires
        n <= u128::MAX,
        (unit == 's' || unit == 'S') && seconds == 1 || (unit == 'm' || unit == 'M')
            && seconds == 60
            || (unit == 'h' || unit == 'H') && seconds == 3600 || (unit == 'd' || unit == 'D')
            && seconds == 86400,
    ensures
        age_of(decimal(n).push(unit)) == if n * seconds * 1_000_000_000 > i64::MAX {
            Err::<int, AgeError>(AgeError::TooLarge)
        } else {
            Ok::<int, AgeError>((n * seconds * 1_000_000_000) as int)
        },
        age_of(decimal(n)) == if n * 1_000_000_000 > i64::MAX {
            Err::<int, AgeError>(AgeError::TooLarge)
        } else {
            Ok::<int, AgeError>((n * 1_000_000_000) as int)
        },
{
    lemma_age(n, unit);
    law_decimal_round_trip(n);
    let d = decimal(n);
    assert(unit_seconds(unit) == Some(seconds));
    assert(d.push(unit).last() == unit);
    assert(age_parts(d.push(unit)) == Some((d, seconds)));
    assert(unit_seconds(d.last()) is None);
    assert(age_parts(d) == Some((d, 1nat)));
}

/// An age is a number of seconds, or of the unit behind it: seconds, minutes,
/// hours or days, in either case. It is told in nanoseconds.
pub proof fn law_units_of_ages(n: nat)
    requires
        n <= u128::MAX,
    ensures
        n * 1_000_000_000 <= i64::MAX ==> age_of(decimal(n)) == Ok::<int, AgeError>(
            (n * 1_000_000_000) as int,
        ) && age_of(decimal(n).push('s')) == Ok::<int, AgeError>((n * 1_000_000_000) as int)
            && age_of(decimal(n).push('S')) == Ok::<int, AgeError>((n * 1_000_000_000) as int),
        n * 60_000_000_000 <= i64::MAX ==> age_of(decimal(n).push('m')) == Ok::<int, AgeError>(
            (n * 60_000_000_000) as int,
        ) && age_of(decimal(n).push('M')) == Ok::<int, AgeError>((n * 60_000_000_000) as int),
        n * 3_600_000_000_000 <= i64::MAX ==> age_of(decimal(n).push('h')) == Ok::<int, AgeError>(
            (n * 3_600_000_000_000) as int,
        ) && age_of(decimal(n).push('H')) == Ok::<int, AgeError>((n * 3_600_000_000_000) as int),
        n * 86_400_000_000_000 <= i64::MAX ==> age_of(decimal(n).push('d')) == Ok::<int, AgeError>(
            (n * 86_400_000_000_000) as int,
        ) && age_of(decimal(n).push('D')) == Ok::<int, AgeError>((n * 86_400_000_000_000) as int),
        n * 86_400_000_000_000 > i64::MAX ==> age_of(decimal(n).push('d')) == Err::<int, AgeError>(
            AgeError::TooLarge,
        ),
{
    lemma_age_in(n, 's', 1);
    lemma_age_in(n, 'S', 1);
    lemma_age_in(n, 'm', 60);
    lemma_age_in(n, 'M', 60);
    lemma_age_in(n, 'h', 3600);
    lemma_age_in(n, 'H', 3600);
    lemma_age_in(n, 'd', 86400);
    lemma_age_in(n, 'D', 86400);
}

// ---------------------------------------------------------------------------
// What is planned and removed
// ---------------------------------------------------------------------------

/// A path of both trees is planned exactly where its size, its time or its hash
/// differs, and the policy lets it through; a path of the left tree alone is
/// planned where the policy lets it through.
pub proof fn law_changed_is_planned(
    left: Seq<FileRecord>,
    right: Seq<FileRecord>,
    policy: Option<&ExcludePolicy>,
    i: int,
    j: int,
)
    requires
        0 <= i < left.len(),
        0 <= j < right.len(),
        left[i].rel_path@ == right[j].rel_path@,
        forall|k: int| i < k < left.len() ==> (#[trigger] left[k]).rel_path@ != left[i].rel_path@,
        forall|k: int|
            j < k < right.len() ==> (#[trigger] right[k]).rel_path@ != right[j].rel_path@,
    ensures
        ({
            let items = wanted_items(left, right, policy);
            (exists|n: int|
                0 <= n < items.len() && (#[trigger] items[n]).rel_path@ == left[i].rel_path@
                    && items[n].size == left[i].size && items[n].mtime_ns == left[i].mtime_ns)
                        <==> (
            policy is None || !left_out(left[i].rel_path@, policy)) && (left[i].size
                != right[j].size || left[i].mtime_ns != right[j].mtime_ns || opt_text(
                left[i].fast_hash,
            ) != opt_text(right[j].fast_hash))
        }),
{
    let path = left[i].rel_path@;
    lemma_last_row(left, i);
    lemma_last_row(right, j);
    law_plan_is_complete(left, right, policy, path);
    let items = wanted_items(left, right, policy);
    if exists|n: int| 0 <= n < items.len() && (#[trigger] items[n]).rel_path@ == path {
        let n = choose|n: int| 0 <= n < items.len() && (#[trigger] items[n]).rel_path@ == path;
        assert(items[n] == item_of(left[i]));
    }
}

/// The row of a path is the last one.
proof fn lemma_last_row(rows: Seq<FileRecord>, i: int)
    requires
        0 <= i < rows.len(),
        forall|k: int| i < k < rows.len() ==> (#[trigger] rows[k]).rel_path@ != rows[i].rel_path@,
    ensures
        has_path(rows, rows[i].rel_path@),
        row_of(rows, rows[i].rel_path@) == rows[i],
    decreases rows.len(),
{
    let path = rows[i].rel_path@;
    if i < rows.len() - 1 {
        assert(rows[rows.len() - 1].rel_path@ != path);
        let init = rows.drop_last();
        assert forall|k: int| i < k < init.len() implies (#[trigger] init[k]).rel_path@
            != init[i].rel_path@ by {
            assert(init[k] == rows[k]);
        }
        lemma_last_row(init, i);
        lemma_last_index(init, path);
    }
}

/// A path counts as the same exactly where both trees have it with one size, one
/// time and one hash, as changed where both have it otherwise, and as lone where
/// the other tree lacks it.
pub proof fn law_what_counts_as_same(left: Seq<FileRecord>, right: Seq<FileRecord>, path: Seq<char>)
    ensures
        same_paths(left, right).contains(path) <==> has_path(left, path) && has_path(right, path)
            && row_of(left, path).size == row_of(right, path).size && row_of(left, path).mtime_ns
            == row_of(right, path).mtime_ns && opt_text(row_of(left, path).fast_hash) == opt_text(
            row_of(right, path).fast_hash,
        ),
        common_paths(left, right).contains(path) <==> has_path(left, path) && has_path(right, path),
        lone_paths(left, right).contains(path) <==> has_path(left, path) && !has_path(right, path),
{
    let all = sorted_paths(left);
    lemma_sorted_set(paths_of(left));
    lemma_last_index(left, path);
    lemma_chosen(
        all,
        |p: Seq<char>|
            has_path(right, p) && same_meta(row_of(left, p), row_of(right, p)),
        path,
    );
    lemma_chosen(all, |p: Seq<char>| has_path(right, p), path);
    lemma_chosen(all, |p: Seq<char>| !has_path(right, p), path);
}

proof fn lemma_chosen<T>(s: Seq<T>, keep: spec_fn(T) -> bool, x: T)
    ensures
        s.filter(keep).contains(x) <==> s.contains(x) && keep(x),
{
    if s.filter(keep).contains(x) {
        s.lemma_filter_pred(keep, s.filter(keep).index_of(x));
        s.lemma_filter_contains_rev(keep, x);
    }
    if s.contains(x) && keep(x) {
        s.lemma_filter_contains(keep, s.index_of(x));
    }
}

/// What is removed of the destination: what the source lacks and the policy lets
/// through, and, where that is asked for, what the policy leaves out.
pub proof fn law_what_is_removed(
    source: Seq<FileRecord>,
    destination: Seq<FileRecord>,
    policy: Option<&ExcludePolicy>,
    delete_excluded: bool,
    row: FileRecord,
)
    ensures
        targets(source, destination, policy, delete_excluded).contains(row)
            <==> destination.contains(
            row,
        ) && (if left_out(row.rel_path@, policy) {
            delete_excluded
        } else {
            forall|i: int| 0 <= i < source.len()
                ==> (#[trigger] source[i]).rel_path@ != row.rel_path@
        }),
{
    lemma_chosen(
        destination,
        |row: FileRecord| to_delete(source, policy, delete_excluded, row),
        row,
    );
    lemma_last_index(source, row.rel_path@);
}

/// How a row is removed, and when it counts as gone.
pub proof fn law_how_rows_are_removed(args: &DeleteRunArgs, outcome: &DeleteOutcome)
    ensures
        step_of(args) == DeleteStep::CountOnly <==> args.dry_run,
        step_of(args) == DeleteStep::MoveToBackup <==> !args.dry_run && args.backup_dir is Some,
        step_of(args) == DeleteStep::Remove <==> !args.dry_run && args.backup_dir is None,
        counts_as_deleted(args, outcome) <==> args.dry_run || outcome is Gone,
{
}

/// What the log tells of a row that was removed.
pub proof fn law_log_tells_of_the_removal(row: &FileRecord, args: &DeleteRunArgs, out: bool)
    ensures
        delete_event(row, args, out).rel_path == row.rel_path@,
        delete_event(row, args, out).action == CopyEventAction::Delete,
        delete_event(row, args, out).existing_bytes == Some(row.size),
        delete_event(row, args, out).bytes == row.size,
        delete_event(row, args, out).dry_run == args.dry_run,
        !delete_event(row, args, out).overwrite,
        delete_event(row, args, true).reason == Some("excluded destination entry"@),
        delete_event(row, args, false).reason == Some("destination-only entry"@),
{
}

/// Where failures do not end a removal, each is told: what could not be put
/// aside, what was not there, and what could not be removed.
pub proof fn law_failed_removals_are_told(
    args: &DeleteRunArgs,
    target: Seq<char>,
    outcome: &DeleteOutcome,
)
    requires
        !args.dry_run,
        !args.stop_on_error,
    ensures
        delete_stop(args, target, outcome) is None,
        outcome is Gone ==> delete_note(args, target, outcome) is None,
        args.backup_dir is Some ==> (outcome matches DeleteOutcome::Failed(e) ==> delete_note(
            args,
            target,
            outcome,
        ) == Some("[err] backup failed: "@ + target + ": "@ + e@)),
        args.backup_dir is Some ==> (outcome matches DeleteOutcome::NotFound(e) ==> delete_note(
            args,
            target,
            outcome,
        ) == Some("[err] backup failed: "@ + target + ": "@ + e@)),
        args.backup_dir is None && outcome is NotFound ==> delete_note(args, target, outcome)
            == Some("[err] delete target missing: "@ + target),
        args.backup_dir is None ==> (outcome matches DeleteOutcome::Failed(e) ==> delete_note(
            args,
            target,
            outcome,
        ) == Some("[err] delete failed: "@ + target + ": "@ + e@)),
{
}

/// Where failures end a removal, the first of them does, and nothing is told
/// beside; a dry run never fails.
pub proof fn law_failed_removals_end_it(
    args: &DeleteRunArgs,
    target: Seq<char>,
    outcome: &DeleteOutcome,
)
    requires
        args.stop_on_error,
    ensures
        delete_note(args, target, outcome) is None,
        args.dry_run ==> delete_stop(args, target, outcome) is None,
        outcome is Gone ==> delete_stop(args, target, outcome) is None,
        !args.dry_run && args.backup_dir is Some && !(outcome is Gone) ==> delete_stop(
            args,
            target,
            outcome,
        ) == Some("failed backing up "@ + target),
        !args.dry_run && args.backup_dir is None && outcome is NotFound ==> delete_stop(
            args,
            target,
            outcome,
        ) == Some("missing delete target: "@ + target),
        !args.dry_run && args.backup_dir is None && outcome is Failed ==> delete_stop(
            args,
            target,
            outcome,
        ) == Some("failed deleting "@ + target),
{
}

/// What is told of an age that cannot be read.
pub proof fn law_faults_of_ages(value: Seq<char>)
    ensures
        AgeError::Empty.message_for(value) == "empty max-age value"@,
        AgeError::Invalid.message_for(value) == "invalid max-age value '"@ + value + "'"@,
        AgeError::TooLarge.message_for(value) == "max-age value is too large"@,
{
}

/// What is told of a policy file names the file, and each notation that was
/// tried.
pub proof fn law_faults_of_policies(path: Seq<char>, a: Seq<char>, b: Seq<char>, c: Seq<char>)
    ensures
        policy_fault(path, formats_for("yaml"@), seq![a]) == "invalid yaml policy "@ + path,
        policy_fault(path, formats_for("json5"@), seq![a]) == "invalid json5 policy "@ + path,
        policy_fault(path, formats_for("json"@), seq![a, b]) == "invalid json policy "@ + path
            + ": json error: "@ + a + ", json5 fallback error: "@ + b,
        policy_fault(path, formats_for("txt"@), seq![a, b, c]) == "failed to parse policy "@ + path
            + " as yaml ("@ + a + ") json ("@ + b + ") or json5 ("@ + c + ")"@,
{
    reveal_strlit("yml");
    reveal_strlit("yaml");
    reveal_strlit("json");
    reveal_strlit("json5");
    reveal_strlit("txt");
    assert("yml"@.len() == 3 && "yaml"@.len() == 4 && "json"@.len() == 4 && "json5"@.len() == 5);
    assert("yaml"@[0] != "json"@[0]);
    assert("txt"@.len() == 3 && "txt"@[0] != "yml"@[0]);
}

/// How far a copy has come is told behind every so many entries as are asked
/// for, and behind each where less than one is.
pub proof fn law_progress_is_told_so_often(run: CopyRun)
    ensures
        run.args.progress_every >= 1 ==> (run.is_due() <==> (run.index + 1)
            % (run.args.progress_every as int) == 0),
        run.args.progress_every == 0 ==> run.is_due(),
        run.args.progress_every == 1 ==> run.is_due(),
{
}

/// A directory with a marker is not visited, nor is one that the policy leaves
/// out, unless it is the root; any other is.
pub proof fn law_which_directories_are_visited(rel: Seq<char>, policy: ExcludePolicy, marker: bool)
    ensures
        is_walked(true, Some(rel), policy, false),
        !is_walked(true, Some(rel), policy, true),
        !is_walked(false, Some(rel), policy, true),
        excluded(rel, policy) ==> !is_walked(false, Some(rel), policy, marker),
        !excluded(rel, policy) ==> is_walked(false, Some(rel), policy, false),
        is_walked(false, None, policy, marker),
{
}

/// The bytes of a plan are the sizes of its entries, added up, and those of a
/// removal the sizes of its rows.
pub proof fn law_sizes_are_added_up(
    items: Seq<CopyPlanItem>,
    item: CopyPlanItem,
    rows: Seq<FileRecord>,
    n: int,
)
    requires
        0 <= n < rows.len(),
    ensures
        total_size(items.push(item)) == total_size(items) + item.size,
        total_size(Seq::empty()) == 0,
        sizes_of(rows, n + 1) == sizes_of(rows, n) + rows[n].size,
        sizes_of(rows, 0) == 0,
{
    assert(items.push(item).drop_last() =~= items);
}

} // verus!
