//! What a merge plan reads of a table of actions is what a dossier wrote.

use crate::csv::{csv_field, csv_fields, csv_row, law_csv_round_trip, needs_quotes, quotes_doubled};
use crate::filter::lemma_filter_all;
use crate::matching::DossierMatch;
use crate::merge::{holds_row, is_row_of, row_lines, MergeActionCsvRow};
use crate::number::{decimal, fixed, law_decimal_round_trip, zero_padded};
use crate::ratio::nearest;
use crate::report::{action_cells, action_table, place_of, ratio_cell};
use crate::text::{
    is_digit, joined, lemma_pieces_concat, lemma_pieces_single, lines_of, pieces, stripped,
    trimmed_end, trimmed_start, without_return, CharClass,
};
use vstd::prelude::*;
use vstd::utf8::is_ascii_chars;

verus! {

/// Whether the folders of a match can be written in a line of ASCII.
pub open spec fn is_writable(m: DossierMatch) -> bool {
    &&& is_ascii_chars(m.left_folder@)
    &&& is_ascii_chars(m.right_folder@)
    &&& !m.left_folder@.contains('\n')
    &&& !m.right_folder@.contains('\n')
}

/// What the row of a match tells.
pub open spec fn told(m: DossierMatch, place: nat) -> Seq<Seq<char>> {
    seq![
        m.left_folder@,
        decimal(place),
        m.right_folder@,
        m.confidence_tier.name(),
        m.confidence_tier.advice(),
        ratio_cell(m.overlap_ratio),
        decimal(m.shared_hash_count as nat),
        decimal(m.shared_normalized_file_name_count as nat),
        decimal(m.shared_rel_file_count as nat),
    ]
}

/// Whether a text needs no quotes, and is ASCII in a line.
pub open spec fn is_plain(s: Seq<char>) -> bool {
    forall|i: int| 0 <= i < s.len() ==> is_plain_char(#[trigger] s[i])
}

pub open spec fn is_plain_char(c: char) -> bool {
    is_digit(c) || ('a' <= c <= 'z') || c == ' ' || c == '.'
}

pub proof fn lemma_plain_field(s: Seq<char>)
    requires
        is_plain(s),
    ensures
        csv_field(s) == s,
        is_ascii_chars(s),
        !s.contains('\n'),
{
    lemma_plain_doubled(s);
    if s.contains(',') {
        assert(is_plain_char(s[s.index_of(',')]));
    }
    if s.contains('"') {
        assert(is_plain_char(s[s.index_of('"')]));
    }
    if s.contains('\n') {
        assert(is_plain_char(s[s.index_of('\n')]));
    }
    assert forall|i: int| 0 <= i < s.len() implies '\0' <= #[trigger] s[i] <= '\u{7f}' by {
        assert(is_plain_char(s[i]));
    }
}

proof fn lemma_plain_doubled(s: Seq<char>)
    requires
        is_plain(s),
    ensures
        quotes_doubled(s) == s,
    decreases s.len(),
{
    if s.len() > 0 {
        let init = s.drop_last();
        assert forall|i: int| 0 <= i < init.len() implies is_plain_char(#[trigger] init[i]) by {
            assert(init[i] == s[i]);
        }
        lemma_plain_doubled(init);
        assert(is_plain_char(s[s.len() - 1]));
        assert(init.push(s.last()) =~= s);
    } else {
        assert(quotes_doubled(s) =~= s);
    }
}

pub proof fn lemma_decimal_plain(n: nat)
    ensures
        is_plain(decimal(n)),
        decimal(n).len() > 0,
        is_digit(decimal(n).last()),
{
    law_decimal_round_trip(n);
    let s = decimal(n);
    assert forall|i: int| 0 <= i < s.len() implies is_plain_char(#[trigger] s[i]) by {
        assert(is_digit(s[i]));
    }
}

pub proof fn lemma_fixed_plain(n: nat, places: nat)
    ensures
        is_plain(fixed(n, places)),
{
    let unit = vstd::arithmetic::power::pow(10, places) as nat;
    lemma_decimal_plain(n / unit);
    lemma_decimal_plain(n % unit);
    let whole = decimal(n / unit);
    let part = zero_padded(decimal(n % unit), places);
    assert forall|i: int| 0 <= i < part.len() implies is_plain_char(#[trigger] part[i]) by {
        let d = decimal(n % unit);
        if d.len() < places {
            let pad = places - d.len();
            if i >= pad {
                assert(part[i] == d[i - pad]);
            }
        }
    }
    let s = fixed(n, places);
    assert forall|i: int| 0 <= i < s.len() implies is_plain_char(#[trigger] s[i]) by {
        if i < whole.len() {
            assert(s[i] == whole[i]);
        } else if i > whole.len() {
            assert(s[i] == part[i - whole.len() - 1]);
        }
    }
}

proof fn lemma_words_plain(m: DossierMatch)
    ensures
        is_plain(m.confidence_tier.name()),
        is_plain(m.confidence_tier.advice()),
{
    reveal_strlit("manual");
    reveal_strlit("possible");
    reveal_strlit("similar");
    reveal_strlit("identical");
    reveal_strlit("promote with high confidence");
    reveal_strlit("review and likely apply");
    reveal_strlit("review before applying");
    reveal_strlit("manual inspection required");
}

/// The row of a match, without the line feed that ends it.
spec fn row_text(m: DossierMatch, place: nat) -> Seq<char> {
    joined(action_cells(m, place), seq![','])
}

/// The cells of a row are what it tells, as fields.
proof fn lemma_cells(m: DossierMatch, place: nat)
    requires
        is_writable(m),
    ensures
        action_cells(m, place) == told(m, place).map_values(|f: Seq<char>| csv_field(f)),
        forall|i: int| 0 <= i < 9 ==> is_ascii_chars(#[trigger] told(m, place)[i]),
        forall|i: int| 0 <= i < 9 ==> !(#[trigger] told(m, place)[i]).contains('\n'),
        csv_fields(row_text(m, place)) == told(m, place),
{
    let t = told(m, place);
    lemma_decimal_plain(place);
    lemma_decimal_plain(m.shared_hash_count as nat);
    lemma_decimal_plain(m.shared_normalized_file_name_count as nat);
    lemma_decimal_plain(m.shared_rel_file_count as nat);
    lemma_fixed_plain(
        nearest((m.overlap_ratio.num * 1_000_000) as nat, m.overlap_ratio.den as nat),
        6,
    );
    lemma_words_plain(m);
    lemma_plain_field(t[1]);
    lemma_plain_field(t[3]);
    lemma_plain_field(t[4]);
    lemma_plain_field(t[5]);
    lemma_plain_field(t[6]);
    lemma_plain_field(t[7]);
    lemma_plain_field(t[8]);
    let fields = t.map_values(|f: Seq<char>| csv_field(f));
    assert(action_cells(m, place) =~= fields);
    assert forall|i: int| 0 <= i < 9 implies is_ascii_chars(#[trigger] t[i]) by {
        if i == 0 {
        } else if i == 1 {
        } else if i == 2 {
        } else if i == 3 {
        } else if i == 4 {
        } else if i == 5 {
        } else if i == 6 {
        } else if i == 7 {
        }
    }
    assert forall|i: int| 0 <= i < 9 implies !(#[trigger] t[i]).contains('\n') by {
        if i == 0 {
        } else if i == 1 {
        } else if i == 2 {
        } else if i == 3 {
        } else if i == 4 {
        } else if i == 5 {
        } else if i == 6 {
        } else if i == 7 {
        }
    }
    law_csv_round_trip(t);
}

/// A field without a line feed stays without one.
proof fn lemma_field_in_line(s: Seq<char>)
    requires
        !s.contains('\n'),
    ensures
        !csv_field(s).contains('\n'),
{
    lemma_doubled_in_line(s);
    let f = csv_field(s);
    if f.contains('\n') {
        let i = f.index_of('\n');
        if needs_quotes(s) {
            let q = quotes_doubled(s);
            if 1 <= i <= q.len() {
                assert(q[i - 1] == '\n');
                assert(q.contains('\n'));
            }
        }
    }
}

proof fn lemma_doubled_in_line(s: Seq<char>)
    requires
        !s.contains('\n'),
    ensures
        !quotes_doubled(s).contains('\n'),
    decreases s.len(),
{
    if s.len() > 0 {
        let init = s.drop_last();
        if init.contains('\n') {
            assert(s[init.index_of('\n')] == '\n');
        }
        lemma_doubled_in_line(init);
        let q = quotes_doubled(init);
        if quotes_doubled(s).contains('\n') {
            let i = quotes_doubled(s).index_of('\n');
            assert(s[s.len() - 1] != '\n');
            if i < q.len() {
                assert(q[i] == '\n');
            }
        }
    }
}

proof fn lemma_joined_in_line(parts: Seq<Seq<char>>)
    requires
        parts.len() > 0,
        forall|i: int| 0 <= i < parts.len() ==> !(#[trigger] parts[i]).contains('\n'),
    ensures
        !joined(parts, seq![',']).contains('\n'),
        parts.last().len() > 0 ==> joined(parts, seq![',']).len() > 0 && joined(
            parts,
            seq![','],
        ).last() == parts.last().last(),
    decreases parts.len(),
{
    let j = joined(parts, seq![',']);
    if parts.len() > 1 {
        let init = parts.drop_last();
        assert forall|i: int| 0 <= i < init.len() implies !(#[trigger] init[i]).contains('\n') by {
            assert(init[i] == parts[i]);
        }
        lemma_joined_in_line(init);
        let a = joined(init, seq![',']);
        if j.contains('\n') {
            let i = j.index_of('\n');
            if i < a.len() {
                assert(a[i] == '\n');
            } else if i > a.len() {
                assert(parts.last()[i - a.len() - 1] == '\n');
                assert(parts[parts.len() - 1].contains('\n'));
            }
        }
    } else {
        assert(!parts[0].contains('\n'));
    }
}

/// A row is a line of its own, and no blank one.
proof fn lemma_row_text(m: DossierMatch, place: nat)
    requires
        is_writable(m),
    ensures
        !row_text(m, place).contains('\n'),
        without_return(row_text(m, place)) == row_text(m, place),
        stripped(row_text(m, place)).len() > 0,
{
    let cells = action_cells(m, place);
    lemma_cells(m, place);
    assert forall|i: int| 0 <= i < cells.len() implies !(#[trigger] cells[i]).contains('\n') by {
        assert(!told(m, place)[i].contains('\n'));
        lemma_field_in_line(told(m, place)[i]);
    }
    lemma_joined_in_line(cells);
    lemma_decimal_plain(m.shared_rel_file_count as nat);
    let s = row_text(m, place);
    assert(is_digit(s.last()));
    lemma_strip_keeps_last(s, CharClass::Space);
}

proof fn lemma_strip_keeps_last(s: Seq<char>, class: CharClass)
    requires
        s.len() > 0,
        !class.has(s.last()),
    ensures
        trimmed_start(s, class).len() > 0,
        trimmed_start(s, class).last() == s.last(),
        trimmed_end(trimmed_start(s, class), class).len() > 0,
    decreases s.len(),
{
    if class.has(s[0]) {
        lemma_strip_keeps_last(s.drop_first(), class);
    }
}

/// A further line.
proof fn lemma_next_line(text: Seq<char>, line: Seq<char>)
    requires
        text.len() > 0,
        text.last() == '\n',
        !line.contains('\n'),
        without_return(line) == line,
    ensures
        lines_of(text + line.push('\n')) == lines_of(text).push(line),
{
    let class = CharClass::Is('\n');
    let a = text.drop_last();
    let nothing = Seq::<char>::empty();
    assert(text =~= a + seq!['\n'] + nothing);
    assert(text + line.push('\n') =~= a + seq!['\n'] + (line + seq!['\n'] + nothing));
    lemma_pieces_concat(a, nothing, '\n');
    lemma_pieces_concat(a, line + seq!['\n'] + nothing, '\n');
    lemma_pieces_concat(line, nothing, '\n');
    assert forall|i: int| 0 <= i < line.len() implies !class.has(#[trigger] line[i]) by {
        assert(line.contains(line[i]));
    }
    lemma_pieces_single(line, class);
    lemma_pieces_single(nothing, class);
    let old_parts = pieces(text, class);
    let new_parts = pieces(text + line.push('\n'), class);
    assert(old_parts =~= pieces(a, class).push(nothing));
    assert(new_parts =~= pieces(a, class).push(line).push(nothing));
    assert(old_parts.drop_last() =~= pieces(a, class));
    assert(new_parts.drop_last() =~= pieces(a, class).push(line));
    assert(lines_of(text + line.push('\n')) =~= lines_of(text).push(line));
}

/// The heading of the table is one line.
proof fn lemma_heading(matches: Seq<DossierMatch>)
    ensures
        action_table(matches, 0).len() > 0,
        action_table(matches, 0).last() == '\n',
        lines_of(action_table(matches, 0)).len() == 1,
{
    let h = action_table(matches, 0);
    reveal_strlit(
        "left_folder,rank,right_folder,confidence_tier,next_action,overlap_ratio,shared_hash_count,shared_normalized_file_name_count,shared_rel_file_count\n",
    );
    let line = h.drop_last();
    let nothing = Seq::<char>::empty();
    let class = CharClass::Is('\n');
    assert forall|i: int| 0 <= i < line.len() implies !class.has(#[trigger] line[i]) by {
        assert(line[i] == h[i]);
    }
    assert(h =~= line + seq!['\n'] + nothing);
    lemma_pieces_concat(line, nothing, '\n');
    lemma_pieces_single(line, class);
    lemma_pieces_single(nothing, class);
    assert(pieces(h, class) =~= seq![line, nothing]);
    assert(lines_of(h).len() == 1);
}

/// The lines of the table of the first `n` matches: the heading, and a row for
/// each.
proof fn lemma_table_lines(matches: Seq<DossierMatch>, n: int)
    requires
        0 <= n <= matches.len(),
        forall|i: int| 0 <= i < matches.len() ==> is_writable(#[trigger] matches[i]),
    ensures
        action_table(matches, n).len() > 0,
        action_table(matches, n).last() == '\n',
        lines_of(action_table(matches, n)).len() == n + 1,
        forall|i: int|
            0 <= i < n ==> #[trigger] lines_of(action_table(matches, n))[i + 1] == row_text(
                matches[i],
                place_of(matches, i),
            ),
    decreases n,
{
    if n == 0 {
        lemma_heading(matches);
    } else {
        lemma_table_lines(matches, n - 1);
        let before = action_table(matches, n - 1);
        let m = matches[n - 1];
        let place = place_of(matches, n - 1);
        let row = row_text(m, place);
        assert(is_writable(m));
        lemma_row_text(m, place);
        lemma_next_line(before, row);
        assert(csv_row(action_cells(m, place)) =~= row.push('\n'));
        assert(action_table(matches, n) =~= before + row.push('\n'));
    }
}

/// The rows that are read from a table of actions are those that were written:
/// one for each match, in order, with the same cells.
pub proof fn law_actions_are_read_back(matches: Seq<DossierMatch>)
    requires
        forall|i: int| 0 <= i < matches.len() ==> is_writable(#[trigger] matches[i]),
    ensures
        ({
            let lines = row_lines(action_table(matches, matches.len() as int));
            &&& lines.len() == matches.len()
            &&& forall|i: int|
                0 <= i < matches.len() ==> csv_fields(#[trigger] lines[i]) == told(
                    matches[i],
                    place_of(matches, i),
                )
        }),
{
    let n = matches.len() as int;
    let text = action_table(matches, n);
    lemma_table_lines(matches, n);
    let body = lines_of(text).skip(1);
    let keep = |line: Seq<char>| holds_row(line);
    assert forall|i: int| 0 <= i < body.len() implies keep(#[trigger] body[i])
        && csv_fields(body[i])
        == told(matches[i], place_of(matches, i)) by {
        assert(body[i] == lines_of(text)[i + 1]);
        assert(is_writable(matches[i]));
        lemma_row_text(matches[i], place_of(matches, i));
        lemma_cells(matches[i], place_of(matches, i));
    }
    lemma_filter_all(body, keep);
}

/// A row that is read back names the folders of its match, and its place.
pub proof fn law_read_row_names_its_match(row: MergeActionCsvRow, m: DossierMatch, place: nat)
    requires
        is_row_of(row, told(m, place)),
        place <= usize::MAX,
    ensures
        row.left_folder@ == m.left_folder@,
        row.right_folder@ == m.right_folder@,
        row.rank == place,
        row.next_action@ == m.confidence_tier.advice(),
        row.shared_hash_count == m.shared_hash_count,
{
    law_decimal_round_trip(place);
    law_decimal_round_trip(m.shared_hash_count as nat);
}

} // verus!
