//! Laws of texts.

use crate::compat_run_laws::law_distinct_keeps_each_once;
use crate::filter::{lemma_filter_all, lemma_filter_keeps};
use crate::number::zero_padded;
use crate::policy::{distinct, normal_excludes, normal_names, normal_rules, policy_path};
use crate::resume::at_least_zero;
use crate::text::{
    ascii_lower, is_space, joined, lemma_pieces_concat, lemma_pieces_nonempty, lemma_pieces_single,
    lemma_split_of_join, lines_of, pieces, replaced, stripped, texts, trimmed_end, trimmed_start,
    CharClass,
};
use vstd::prelude::*;

verus! {

/// Capital letters of ASCII become small ones, and nothing else changes.
pub proof fn law_lower_case(s: Seq<char>, i: int)
    requires
        0 <= i < s.len(),
    ensures
        ascii_lower(s).len() == s.len(),
        s[i] == 'A' ==> ascii_lower(s)[i] == 'a',
        s[i] == 'M' ==> ascii_lower(s)[i] == 'm',
        s[i] == 'Z' ==> ascii_lower(s)[i] == 'z',
        'A' <= s[i] <= 'Z' ==> ascii_lower(s)[i] as u32 == s[i] as u32 + 32,
        !('A' <= s[i] <= 'Z') ==> ascii_lower(s)[i] == s[i],
{
}

/// One character takes the place of another wherever that stands, and nothing
/// else changes.
pub proof fn law_replaced_characters(s: Seq<char>, from: char, to: char, i: int)
    requires
        0 <= i < s.len(),
    ensures
        replaced(s, from, to).len() == s.len(),
        s[i] == from ==> replaced(s, from, to)[i] == to,
        s[i] != from ==> replaced(s, from, to)[i] == s[i],
{
}

proof fn lemma_strip_front(before: Seq<char>, s: Seq<char>)
    requires
        forall|i: int| 0 <= i < before.len() ==> is_space(#[trigger] before[i]),
        s.len() > 0,
        !is_space(s[0]),
    ensures
        trimmed_start(before + s, CharClass::Space) == s,
    decreases before.len(),
{
    if before.len() > 0 {
        assert((before + s)[0] == before[0]);
        assert((before + s).drop_first() =~= before.drop_first() + s);
        lemma_strip_front(before.drop_first(), s);
    } else {
        assert(before + s =~= s);
    }
}

proof fn lemma_strip_back(s: Seq<char>, after: Seq<char>)
    requires
        forall|i: int| 0 <= i < after.len() ==> is_space(#[trigger] after[i]),
        s.len() > 0,
        !is_space(s.last()),
    ensures
        trimmed_end(s + after, CharClass::Space) == s,
    decreases after.len(),
{
    if after.len() > 0 {
        assert((s + after).last() == after.last());
        assert((s + after).drop_last() =~= s + after.drop_last());
        lemma_strip_back(s, after.drop_last());
    } else {
        assert(s + after =~= s);
    }
}

/// White space around a text is taken off, and none within it.
pub proof fn law_white_space_around_a_text(before: Seq<char>, s: Seq<char>, after: Seq<char>)
    requires
        forall|i: int| 0 <= i < before.len() ==> is_space(#[trigger] before[i]),
        forall|i: int| 0 <= i < after.len() ==> is_space(#[trigger] after[i]),
        s.len() > 0,
        !is_space(s[0]),
        !is_space(s.last()),
    ensures
        stripped(before + s + after) == s,
{
    assert(before + s + after =~= before + (s + after));
    assert((s + after)[0] == s[0]);
    lemma_strip_front(before, s + after);
    lemma_strip_back(s, after);
}

/// The characters of white space that a keyboard has.
pub proof fn law_white_space()
    ensures
        is_space(' ') && is_space('\t') && is_space('\n') && is_space('\r'),
        !is_space('a') && !is_space('0') && !is_space('/') && !is_space('.') && !is_space('_'),
{
}

/// A text of lines, each with its line feed, is read as these lines; what
/// stands behind the last line feed is a line too, where anything does.
pub proof fn law_lines_of_a_text(line: Seq<char>, rest: Seq<char>)
    requires
        !line.contains('\n'),
        line.len() == 0 || line.last() != '\r',
    ensures
        lines_of(line + seq!['\n'] + rest) == seq![line] + lines_of(rest),
        lines_of(line + seq!['\r', '\n'] + rest) == seq![line] + lines_of(rest),
        line.len() > 0 ==> lines_of(line) == seq![line],
        lines_of(Seq::empty()).len() == 0,
{
    let class = CharClass::Is('\n');
    let returned = line.push('\r');
    lemma_one_piece(line);
    assert(!returned.contains('\n')) by {
        if returned.contains('\n') {
            let i = returned.index_of('\n');
            if i < line.len() {
                assert(line.contains(line[i]));
            }
        }
    }
    lemma_one_piece(returned);
    lemma_pieces_concat(line, rest, '\n');
    lemma_pieces_concat(returned, rest, '\n');
    lemma_pieces_nonempty(rest, class);
    let parts = pieces(rest, class);
    let a = line + seq!['\n'] + rest;
    let b = line + seq!['\r', '\n'] + rest;
    assert(b =~= returned + seq!['\n'] + rest);
    assert(returned.drop_last() =~= line);
    assert(pieces(a, class).drop_last() =~= seq![line] + parts.drop_last());
    assert(pieces(b, class).drop_last() =~= seq![returned] + parts.drop_last());
    assert(lines_of(a) =~= seq![line] + lines_of(rest));
    assert(lines_of(b) =~= seq![line] + lines_of(rest));
    assert(line.len() > 0 ==> lines_of(line) =~= seq![line]);
    assert(pieces(Seq::empty(), class) =~= seq![Seq::<char>::empty()]);
}

proof fn lemma_one_piece(line: Seq<char>)
    requires
        !line.contains('\n'),
    ensures
        pieces(line, CharClass::Is('\n')) == seq![line],
{
    let class = CharClass::Is('\n');
    assert forall|i: int| 0 <= i < line.len() implies !class.has(#[trigger] line[i]) by {
        assert(line.contains(line[i]));
    }
    lemma_pieces_single(line, class);
}

// ---------------------------------------------------------------------------
// Paths and names of a policy
// ---------------------------------------------------------------------------

/// The names in a path that a policy gives stand in it as they are, with single
/// slashes between them, however many there were.
pub proof fn law_paths_of_a_policy(names: Seq<Seq<char>>)
    requires
        names.len() > 0,
        forall|k: int| 0 <= k < names.len() ==> (#[trigger] names[k]).len() > 0,
        forall|k: int| 0 <= k < names.len() ==> !(#[trigger] names[k]).contains('/'),
        stripped(joined(names, seq!['/'])) == joined(names, seq!['/']),
    ensures
        policy_path(joined(names, seq!['/'])) == joined(names, seq!['/']),
{
    lemma_split_of_join(names, '/');
    lemma_filter_all(names, |p: Seq<char>| p.len() > 0);
}

/// The names that a policy gives are taken without the white space around them,
/// each once, and none that is empty.
pub proof fn law_names_of_a_policy(values: Seq<Seq<char>>, x: Seq<char>)
    ensures
        normal_names(values).no_duplicates(),
        normal_names(values).contains(x) <==> x.len() > 0 && exists|i: int|
            0 <= i < values.len() && stripped(#[trigger] values[i]) == x,
{
    let all = values.map_values(|v: Seq<char>| stripped(v));
    let some = all.filter(|v: Seq<char>| v.len() > 0);
    law_distinct_keeps_each_once(some);
    lemma_filter_keeps(all, |v: Seq<char>| v.len() > 0, x);
    if all.contains(x) {
        let i = choose|i: int| 0 <= i < all.len() && all[i] == x;
        assert(stripped(values[i]) == x);
    }
    if exists|i: int| 0 <= i < values.len() && stripped(#[trigger] values[i]) == x {
        let i = choose|i: int| 0 <= i < values.len() && stripped(#[trigger] values[i]) == x;
        assert(all[i] == x);
    }
    assert(distinct(some).contains(x) <==> some.contains(x));
}

/// The paths that a policy gives are taken in normal form, and none that is
/// empty.
pub proof fn law_excludes_of_a_policy(values: Seq<Seq<char>>, x: Seq<char>)
    ensures
        normal_excludes(values).contains(x) <==> x.len() > 0 && exists|i: int|
            0 <= i < values.len() && policy_path(#[trigger] values[i]) == x,
{
    let all = values.map_values(|v: Seq<char>| policy_path(v));
    lemma_filter_keeps(all, |v: Seq<char>| v.len() > 0, x);
    if all.contains(x) {
        let i = choose|i: int| 0 <= i < all.len() && all[i] == x;
        assert(policy_path(values[i]) == x);
    }
    if exists|i: int| 0 <= i < values.len() && policy_path(#[trigger] values[i]) == x {
        let i = choose|i: int| 0 <= i < values.len() && policy_path(#[trigger] values[i]) == x;
        assert(all[i] == x);
    }
}

/// Of two rules for one path of a policy the later holds, where it names
/// anything.
pub proof fn law_later_rule_holds(keys: Seq<Seq<char>>, values: Seq<Vec<String>>, n: int)
    requires
        0 <= n,
        n < keys.len(),
        n < values.len(),
        policy_path(keys[n]).len() > 0,
    ensures
        normal_names(texts(values[n]@)).len() > 0 ==> normal_rules(keys, values, n
            + 1).contains_key(
            policy_path(keys[n]),
        ) && normal_rules(keys, values, n + 1)[policy_path(keys[n])] == normal_names(
            texts(values[n]@),
        ),
        normal_names(texts(values[n]@)).len() == 0 ==> normal_rules(keys, values, n + 1)
            == normal_rules(keys, values, n),
        forall|base: Seq<char>|
            base != policy_path(keys[n]) ==> (#[trigger] normal_rules(keys, values, n
                + 1).contains_key(
                base,
            ) <==> normal_rules(keys, values, n).contains_key(base)),
{
}

/// A number is padded with zeros before it, as many as it takes.
pub proof fn law_zeros_before_a_number(s: Seq<char>, width: nat)
    ensures
        zero_padded(s, width).len() >= width,
        s.len() >= width ==> zero_padded(s, width) == s,
        s.len() < width ==> zero_padded(s, width).len() == width && zero_padded(s, width).skip(
            width - s.len(),
        ) == s,
        forall|i: int|
            0 <= i < width - s.len() ==> #[trigger] zero_padded(s, width)[i] == '0',
{
    if s.len() < width {
        assert(zero_padded(s, width).skip(width - s.len()) =~= s);
    }
}

/// A count that is stored as less than nothing is nothing.
pub proof fn law_counts_are_no_less_than_nothing(n: i64)
    ensures
        n >= 0 ==> at_least_zero(n) == n,
        n <= 0 ==> at_least_zero(n) == 0,
{
}

} // verus!
