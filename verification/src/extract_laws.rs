//! Laws of the archives of two trees.

use crate::archive::names_archive;
use crate::csv::csv_field;
use crate::dossier::folder_of;
use crate::extract_check::{
    archive_rows, check_table, entry_paths, entry_stems, finds, is_entry_of, labelled,
    lemma_place_of_rank, lemma_places_rise, match_of, matches_of, only_entries, partner, spare_left,
    stem_rank, text_rows, ExtractCheckEntry, ExtractCheckMatch, ExtractCheckReport,
};
use crate::filter::lemma_filter_keeps;
use crate::keyed::{in_both, lemma_last_at, lemma_places, only_in, places};
use crate::member_diff::{diff_table, ArchiveMemberDiffReport, ArchiveMemberPlanRow};
use crate::number::decimal;
use crate::order::{in_order, Ranked};
use crate::record::FileRecord;
use crate::telling_laws::lemma_stands_in_longer;
use crate::text::{contains_text, joined, lemma_text_lt_total, opt_text, stands_at, text_lt};
use crate::textmap::{lemma_sorted_set, sorted_set};
use vstd::prelude::*;

verus! {

/// The archives of a tree are the rows that are named as archives.
pub proof fn law_archives_go_by_their_names(rows: Seq<FileRecord>, i: int)
    requires
        0 <= i < rows.len(),
    ensures
        names_archive(rows[i].rel_path@) <==> archive_rows(rows).contains(rows[i]),
{
    lemma_filter_keeps(rows, |row: FileRecord| names_archive(row.rel_path@), rows[i]);
    assert(rows.contains(rows[i]));
}

/// The entry of an archive tells what its row does.
pub proof fn law_entry_tells_its_row(e: ExtractCheckEntry, row: FileRecord)
    requires
        is_entry_of(e, row),
    ensures
        e.path@ == row.rel_path@,
        e.folder@ == folder_of(row.rel_path@),
        e.size == row.size,
        e.mtime_ns == row.mtime_ns,
        opt_text(e.fast_hash) == opt_text(row.fast_hash),
        e.archive_family is None ==> e.payload_signature is None && e.archive_depth == 0,
{
}

/// A match gives of each side its path, its folder, its size, its time and its
/// hash, and of the left one what the archive is.
pub proof fn law_match_tells_both_sides(l: ExtractCheckEntry, r: ExtractCheckEntry)
    ensures
        ({
            let m = match_of(l, r);
            &&& m.left_path@ == l.path@ && m.right_path@ == r.path@
            &&& m.left_folder@ == l.folder@ && m.right_folder@ == r.folder@
            &&& m.left_size == l.size && m.right_size == r.size
            &&& m.left_mtime_ns == l.mtime_ns && m.right_mtime_ns == r.mtime_ns
            &&& m.left_fast_hash == l.fast_hash && m.right_fast_hash == r.fast_hash
            &&& m.stem@ == l.stem@ && m.virtual_path@ == l.virtual_path@
            &&& m.archive_family == l.archive_family
            &&& m.payload_signature == l.payload_signature
            &&& m.archive_depth == l.archive_depth
        }),
{
}

proof fn lemma_no_places(keys: Seq<Seq<char>>, key: Seq<char>)
    requires
        !keys.contains(key),
    ensures
        places(keys, key).len() == 0,
    decreases keys.len(),
{
    lemma_places(keys, key);
    if places(keys, key).len() > 0 {
        assert(keys[places(keys, key)[0]] == key);
    }
}

proof fn lemma_spare_left_holds(
    a: Seq<ExtractCheckEntry>,
    b: Seq<ExtractCheckEntry>,
    n: int,
    i: int,
)
    requires
        0 <= i < n <= a.len(),
    ensures
        !finds(a, b, i) ==> spare_left(a, b, n).contains(a[i]),
        finds(a, b, i) ==> matches_of(a, b, n).contains(match_of(a[i], b[partner(a, b, i)])),
    decreases n,
{
    let s = spare_left(a, b, n);
    let m = matches_of(a, b, n);
    if i == n - 1 {
        if finds(a, b, i) {
            assert(m[m.len() - 1] == match_of(a[i], b[partner(a, b, i)]));
        } else {
            assert(s[s.len() - 1] == a[i]);
        }
    } else {
        lemma_spare_left_holds(a, b, n - 1, i);
        let t = spare_left(a, b, n - 1);
        let u = matches_of(a, b, n - 1);
        if finds(a, b, i) {
            let x = match_of(a[i], b[partner(a, b, i)]);
            assert(m[u.index_of(x)] == x);
        } else {
            assert(s[t.index_of(a[i])] == a[i]);
        }
    }
}

/// An archive whose stem no archive of the other tree has is left over.
pub proof fn law_lone_stem_is_left_over(
    a: Seq<ExtractCheckEntry>,
    b: Seq<ExtractCheckEntry>,
    i: int,
)
    requires
        0 <= i < a.len(),
        forall|j: int| 0 <= j < b.len() ==> (#[trigger] b[j]).stem@ != a[i].stem@,
    ensures
        spare_left(a, b, a.len() as int).contains(a[i]),
{
    let stems = entry_stems(b);
    if stems.contains(a[i].stem@) {
        let j = stems.index_of(a[i].stem@);
        assert(b[j].stem@ == a[i].stem@);
    }
    lemma_no_places(stems, a[i].stem@);
    lemma_spare_left_holds(a, b, a.len() as int, i);
}

/// The first archive of a stem that archives of the other tree have is matched
/// with the last of those.
pub proof fn law_first_of_a_stem_is_matched(
    a: Seq<ExtractCheckEntry>,
    b: Seq<ExtractCheckEntry>,
    i: int,
    j: int,
)
    requires
        0 <= i < a.len(),
        0 <= j < b.len(),
        a[i].stem@ == b[j].stem@,
        forall|k: int| 0 <= k < i ==> (#[trigger] a[k]).stem@ != a[i].stem@,
        forall|k: int| j < k < b.len() ==> (#[trigger] b[k]).stem@ != b[j].stem@,
    ensures
        matches_of(a, b, a.len() as int).contains(match_of(a[i], b[j])),
{
    let sa = entry_stems(a);
    let sb = entry_stems(b);
    let stem = a[i].stem@;
    if sa.take(i).contains(stem) {
        let k = sa.take(i).index_of(stem);
        assert(a[k].stem@ == stem);
    }
    lemma_no_places(sa.take(i), stem);
    assert(stem_rank(a, i) == 0);
    assert(sb[j] == stem);
    lemma_place_of_rank(sb, j);
    lemma_places(sb, stem);
    let p = places(sb, stem);
    let last = p.len() - 1;
    let rank = places(sb.take(j), stem).len() as int;
    assert(sb[p[last]] == stem);
    if rank < last {
        lemma_places_rise(sb, stem, rank, last);
        assert(b[p[last]].stem@ == stem);
    }
    assert(partner(a, b, i) == j);
    lemma_spare_left_holds(a, b, a.len() as int, i);
}

/// The archives of one tree alone are those at paths that the other has no
/// archive at.
pub proof fn law_archives_of_one_tree_alone(
    a: Seq<ExtractCheckEntry>,
    b: Seq<ExtractCheckEntry>,
    p: Seq<char>,
)
    ensures
        entry_paths(only_entries(a, b)).contains(p) <==> (exists|i: int|
            0 <= i < a.len() && (#[trigger] a[i]).path@ == p) && forall|j: int|
            0 <= j < b.len() ==> (#[trigger] b[j]).path@ != p,
{
    let pa = entry_paths(a);
    let pb = entry_paths(b);
    let some = only_in(pa, pb);
    let own = entry_paths(only_entries(a, b));
    lemma_sorted_set(pa);
    lemma_filter_keeps(sorted_set(pa), |k: Seq<char>| !pb.contains(k), p);
    assert(own =~= some) by {
        assert forall|i: int| 0 <= i < some.len() implies own[i] == some[i] by {
            assert(some.contains(some[i]));
            lemma_filter_keeps(sorted_set(pa), |k: Seq<char>| !pb.contains(k), some[i]);
            lemma_last_at(pa, some[i]);
        }
    }
    if pa.contains(p) {
        assert(a[pa.index_of(p)].path@ == p);
    }
    if exists|i: int| 0 <= i < a.len() && (#[trigger] a[i]).path@ == p {
        let i = choose|i: int| 0 <= i < a.len() && (#[trigger] a[i]).path@ == p;
        assert(pa[i] == p);
    }
    if pb.contains(p) {
        assert(b[pb.index_of(p)].path@ == p);
    }
    if exists|j: int| 0 <= j < b.len() && (#[trigger] b[j]).path@ == p {
        let j = choose|j: int| 0 <= j < b.len() && (#[trigger] b[j]).path@ == p;
        assert(pb[j] == p);
    }
}

proof fn lemma_ends_in(s: Seq<char>, part: Seq<char>)
    ensures
        contains_text(s + part, part),
{
    let i = s.len() as int;
    assert((s + part).subrange(i, i + part.len()) =~= part);
    assert(stands_at(s + part, part, i));
}

/// A row of a table on two trees has the section, the labels of the trees, the
/// name of what is told and its value.
pub proof fn law_rows_on_two_trees(
    section: Seq<char>,
    left: Seq<char>,
    right: Seq<char>,
    metric: Seq<char>,
    value: Seq<char>,
)
    ensures
        labelled(section, left, right, seq![metric, value]) == section + seq![','] + csv_field(left)
            + seq![','] + csv_field(right) + seq![','] + metric + seq![','] + value + seq!['\n'],
{
    let cells = seq![section, csv_field(left), csv_field(right)] + seq![metric, value];
    let sep = seq![','];
    let l = csv_field(left);
    let r = csv_field(right);
    let two = seq![section, l];
    let three = seq![section, l, r];
    let four = seq![section, l, r, metric];
    assert(cells.drop_last() =~= four);
    assert(four.drop_last() =~= three);
    assert(three.drop_last() =~= two);
    assert(two.drop_last() =~= seq![section]);
    assert(joined(seq![section], sep) == section);
    assert(joined(two, sep) == section + sep + l);
    assert(joined(three, sep) == section + sep + l + sep + r);
    assert(joined(four, sep) == section + sep + l + sep + r + sep + metric);
    assert(joined(cells, sep) == section + sep + l + sep + r + sep + metric + sep + value);
    assert(labelled(section, left, right, seq![metric, value]) =~= joined(cells, sep) + seq!['\n']);
}

/// The table of a report gives each count in a row of the summary, under its
/// name.
pub proof fn law_counts_in_the_table(report: &ExtractCheckReport)
    ensures
        ({
            let l = report.left_label@;
            let r = report.right_label@;
            let t = check_table(report);
            &&& contains_text(
                t,
                labelled(
                    "summary"@,
                    l,
                    r,
                    seq!["left_archive_count"@, decimal(report.left_archive_count as nat)],
                ),
            )
            &&& contains_text(
                t,
                labelled(
                    "summary"@,
                    l,
                    r,
                    seq!["right_archive_count"@, decimal(report.right_archive_count as nat)],
                ),
            )
            &&& contains_text(
                t,
                labelled(
                    "summary"@,
                    l,
                    r,
                    seq!["exact_matches"@, decimal(report.exact_matches as nat)],
                ),
            )
            &&& contains_text(
                t,
                labelled(
                    "summary"@,
                    l,
                    r,
                    seq!["left_only_count"@, decimal(report.left_only_count as nat)],
                ),
            )
            &&& contains_text(
                t,
                labelled(
                    "summary"@,
                    l,
                    r,
                    seq!["right_only_count"@, decimal(report.right_only_count as nat)],
                ),
            )
            &&& contains_text(
                t,
                labelled(
                    "summary"@,
                    l,
                    r,
                    seq!["stem_matches"@, decimal(report.stem_matches as nat)],
                ),
            )
        }),
{
    broadcast use lemma_stands_in_longer;

    let l = report.left_label@;
    let r = report.right_label@;
    let count = |metric: Seq<char>, n: usize|
        labelled("summary"@, l, r, seq![metric, decimal(n as nat)]);
    let p0 = "section,left_label,right_label,metric,value\n"@;
    let p1 = p0 + count("left_archive_count"@, report.left_archive_count);
    let p2 = p1 + count("right_archive_count"@, report.right_archive_count);
    let p3 = p2 + count("exact_matches"@, report.exact_matches);
    let p4 = p3 + count("left_only_count"@, report.left_only_count);
    let p5 = p4 + count("right_only_count"@, report.right_only_count);
    lemma_ends_in(p0, count("left_archive_count"@, report.left_archive_count));
    lemma_ends_in(p1, count("right_archive_count"@, report.right_archive_count));
    lemma_ends_in(p2, count("exact_matches"@, report.exact_matches));
    lemma_ends_in(p3, count("left_only_count"@, report.left_only_count));
    lemma_ends_in(p4, count("right_only_count"@, report.right_only_count));
    lemma_ends_in(p5, count("stem_matches"@, report.stem_matches));
}

/// The keys that two lists both have are those that each of them has.
pub proof fn law_keys_of_both(keys: Seq<Seq<char>>, others: Seq<Seq<char>>, k: Seq<char>)
    ensures
        in_both(keys, others).contains(k) <==> keys.contains(k) && others.contains(k),
        only_in(keys, others).contains(k) <==> keys.contains(k) && !others.contains(k),
{
    lemma_sorted_set(keys);
    lemma_filter_keeps(sorted_set(keys), |x: Seq<char>| others.contains(x), k);
    lemma_filter_keeps(sorted_set(keys), |x: Seq<char>| !others.contains(x), k);
}

/// The table of the members gives each count in a row of the summary, under its
/// name.
pub proof fn law_counts_of_members_in_the_table(report: &ArchiveMemberDiffReport)
    ensures
        ({
            let l = report.left_label@;
            let r = report.right_label@;
            let t = diff_table(report);
            &&& contains_text(
                t,
                labelled(
                    "summary"@,
                    l,
                    r,
                    seq!["left_members"@, decimal(report.left_members as nat)],
                ),
            )
            &&& contains_text(
                t,
                labelled(
                    "summary"@,
                    l,
                    r,
                    seq!["right_members"@, decimal(report.right_members as nat)],
                ),
            )
            &&& contains_text(
                t,
                labelled(
                    "summary"@,
                    l,
                    r,
                    seq!["exact_member_matches"@, decimal(report.exact_member_matches as nat)],
                ),
            )
            &&& contains_text(
                t,
                labelled(
                    "summary"@,
                    l,
                    r,
                    seq!["payload_family_matches"@, decimal(report.payload_family_matches as nat)],
                ),
            )
        }),
{
    broadcast use lemma_stands_in_longer;

    let l = report.left_label@;
    let r = report.right_label@;
    let count = |metric: Seq<char>, n: usize|
        labelled("summary"@, l, r, seq![metric, decimal(n as nat)]);
    let p0 = "section,left_label,right_label,metric,value\n"@;
    let p1 = p0 + count("left_members"@, report.left_members);
    let p2 = p1 + count("right_members"@, report.right_members);
    let p3 = p2 + count("exact_member_matches"@, report.exact_member_matches);
    lemma_ends_in(p0, count("left_members"@, report.left_members));
    lemma_ends_in(p1, count("right_members"@, report.right_members));
    lemma_ends_in(p2, count("exact_member_matches"@, report.exact_member_matches));
    lemma_ends_in(p3, count("payload_family_matches"@, report.payload_family_matches));
}

/// A table of texts has a row for each of them, in order, under the section and
/// the name that they are told by.
pub proof fn law_rows_of_texts(
    section: Seq<char>,
    left: Seq<char>,
    right: Seq<char>,
    metric: Seq<char>,
    values: Seq<Seq<char>>,
    value: Seq<char>,
)
    ensures
        text_rows(section, left, right, metric, values.push(value)) == text_rows(
            section,
            left,
            right,
            metric,
            values,
        ) + labelled(section, left, right, seq![metric, csv_field(value)]),
        text_rows(section, left, right, metric, Seq::empty()).len() == 0,
{
    assert(values.push(value).drop_last() =~= values);
}

/// The matches by stem are told in the order of their stems, and those of one
/// stem in that of their left paths.
pub proof fn law_matches_are_told_by_stem(v: Seq<ExtractCheckMatch>, i: int, j: int)
    requires
        in_order(v),
        0 <= i < j < v.len(),
    ensures
        v[i].stem@ == v[j].stem@ || text_lt(v[i].stem@, v[j].stem@),
        v[i].stem@ == v[j].stem@ ==> v[i].left_path@ == v[j].left_path@ || text_lt(
            v[i].left_path@,
            v[j].left_path@,
        ),
{
    lemma_text_lt_total(v[i].stem@, v[j].stem@);
    lemma_text_lt_total(v[i].left_path@, v[j].left_path@);
    assert(!v[j].before(&v[i]));
}

/// The rows of a plan are told in the order of their members, and those of one
/// member in that of their sides.
pub proof fn law_plan_is_told_by_member(v: Seq<ArchiveMemberPlanRow>, i: int, j: int)
    requires
        in_order(v),
        0 <= i < j < v.len(),
    ensures
        v[i].virtual_member@ == v[j].virtual_member@ || text_lt(
            v[i].virtual_member@,
            v[j].virtual_member@,
        ),
        v[i].virtual_member@ == v[j].virtual_member@ ==> v[i].side@ == v[j].side@ || text_lt(
            v[i].side@,
            v[j].side@,
        ),
{
    lemma_text_lt_total(v[i].virtual_member@, v[j].virtual_member@);
    lemma_text_lt_total(v[i].side@, v[j].side@);
    assert(!v[j].before(&v[i]));
}

} // verus!
