//! Comma-separated values: fields, rows, and reading them back.

use crate::text::{char_texts, extend, from_chars, join, joined, texts, to_chars};
use vstd::prelude::*;
use vstd::string::*;
use vstd::utf8::{encode_utf8, is_ascii_chars, is_ascii_chars_encode_utf8};

verus! {

// ---------------------------------------------------------------------------
// Writing
// ---------------------------------------------------------------------------

/// A text with each quote doubled.
pub open spec fn quotes_doubled(s: Seq<char>) -> Seq<char>
    decreases s.len(),
{
    if s.len() == 0 {
        Seq::empty()
    } else if s.last() == '"' {
        quotes_doubled(s.drop_last()) + seq!['"', '"']
    } else {
        quotes_doubled(s.drop_last()).push(s.last())
    }
}

/// Whether a text has to be quoted.
pub open spec fn needs_quotes(s: Seq<char>) -> bool {
    s.contains(',') || s.contains('"') || s.contains('\n')
}

/// A text as a field.
pub open spec fn csv_field(s: Seq<char>) -> Seq<char> {
    if needs_quotes(s) {
        seq!['"'] + quotes_doubled(s) + seq!['"']
    } else {
        quotes_doubled(s)
    }
}

pub(crate) fn escape_chars(s: &Vec<char>) -> (r: Vec<char>)
    ensures
        r@ == csv_field(s@),
{
    let mut needs = false;
    let mut body: Vec<char> = Vec::new();
    let mut i: usize = 0;
    while i < s.len()
        invariant
            i <= s@.len(),
            body@ == quotes_doubled(s@.take(i as int)),
            needs == needs_quotes(s@.take(i as int)),
        decreases s@.len() - i,
    {
        let c = s[i];
        let ghost before = s@.take(i as int);
        let ghost after = s@.take(i as int + 1);
        proof {
            assert(after.drop_last() =~= before);
            assert(after.last() == c);
            assert forall|x: char| after.contains(x) <==> before.contains(x) || x == c by {
                if before.contains(x) {
                    let k = before.index_of(x);
                    assert(after[k] == x);
                }
                if after.contains(x) {
                    let k = after.index_of(x);
                    if k < i {
                        assert(before[k] == x);
                    }
                }
                assert(after[i as int] == c);
            }
        }
        if c == '"' {
            body.push('"');
            body.push('"');
            assert(body@ =~= quotes_doubled(before) + seq!['"', '"']);
            needs = true;
        } else {
            body.push(c);
            if c == ',' || c == '\n' {
                needs = true;
            }
        }
        i = i + 1;
    }
    assert(s@.take(i as int) =~= s@);
    if !needs {
        return body;
    }
    let mut r: Vec<char> = Vec::new();
    r.push('"');
    extend(&mut r, &body);
    r.push('"');
    assert(r@ =~= csv_field(s@));
    r
}

pub fn csv_escape(value: &str) -> (r: String)
    ensures
        r@ == csv_field(value@),
{
    let chars = to_chars(value);
    let field = escape_chars(&chars);
    from_chars(&field)
}

/// A row of cells, with the line feed that ends it.
pub open spec fn csv_row(cells: Seq<Seq<char>>) -> Seq<char> {
    joined(cells, seq![',']).push('\n')
}

/// Appends a row of cells.
pub(crate) fn push_row(out: &mut Vec<char>, cells: &Vec<Vec<char>>)
    ensures
        final(out)@ == old(out)@ + csv_row(char_texts(cells@)),
{
    let ghost start = out@;
    let row = join(cells, ",");
    proof {
        reveal_strlit(",");
        assert(","@ =~= seq![',']);
    }
    extend(out, &row);
    out.push('\n');
    assert(out@ =~= start + csv_row(char_texts(cells@)));
}

/// Adds a text to the cells of a row.
pub(crate) fn push_field(cells: &mut Vec<Vec<char>>, text: &str)
    ensures
        char_texts(final(cells)@) == char_texts(old(cells)@).push(csv_field(text@)),
{
    let chars = to_chars(text);
    let field = escape_chars(&chars);
    push_cell(cells, field);
}

/// Adds a cell that needs no quotes to a row.
pub(crate) fn push_cell(cells: &mut Vec<Vec<char>>, cell: Vec<char>)
    ensures
        char_texts(final(cells)@) == char_texts(old(cells)@).push(cell@),
{
    let ghost before = char_texts(cells@);
    let ghost c = cell@;
    cells.push(cell);
    assert(char_texts(cells@) =~= before.push(c));
}

// ---------------------------------------------------------------------------
// Reading
// ---------------------------------------------------------------------------

/// The fields of a line's bytes, behind the field that has been read in part:
/// commas separate fields outside quotes, a doubled quote inside quotes is a
/// quote, and every byte stands for the character of its number.
pub open spec fn fields_from(b: Seq<u8>, part: Seq<char>, quoted: bool) -> Seq<Seq<char>>
    decreases b.len(),
{
    if b.len() == 0 {
        seq![part]
    } else if b[0] == 34 {
        if quoted && b.len() > 1 && b[1] == 34 {
            fields_from(b.skip(2), part.push('"'), quoted)
        } else {
            fields_from(b.skip(1), part, !quoted)
        }
    } else if b[0] == 44 && !quoted {
        seq![part] + fields_from(b.skip(1), Seq::empty(), false)
    } else {
        fields_from(b.skip(1), part.push(b[0] as char), quoted)
    }
}

/// The fields of a line.
pub open spec fn csv_fields(line: Seq<char>) -> Seq<Seq<char>> {
    fields_from(encode_utf8(line), Seq::empty(), false)
}

pub fn parse_simple_csv_line(line: &str) -> (r: Vec<String>)
    ensures
        texts(r@) == csv_fields(line@),
{
    let b = line.as_bytes();
    let mut r: Vec<String> = Vec::new();
    let mut part = String::new();
    let mut quoted = false;
    let mut i: usize = 0;
    let ghost goal = csv_fields(line@);
    proof {
        assert(b@.skip(0) =~= b@);
        assert(texts(r@) + goal =~= goal);
        assert(part@ =~= Seq::empty());
    }
    while i < b.len()
        invariant
            i <= b@.len(),
            goal == csv_fields(line@),
            texts(r@) + fields_from(b@.skip(i as int), part@, quoted) == goal,
        decreases b@.len() - i,
    {
        let c: u8 = b[i];
        let ghost rest = b@.skip(i as int);
        proof {
            assert(rest[0] == c);
            assert(rest.skip(1) =~= b@.skip(i as int + 1));
            if i + 1 < b@.len() {
                assert(rest[1] == b@[i + 1]);
                assert(rest.skip(2) =~= b@.skip(i as int + 2));
            }
        }
        if c == 34 {
            if quoted && i + 1 < b.len() && b[i + 1] == 34 {
                part.push('"');
                i = i + 2;
            } else {
                quoted = !quoted;
                i = i + 1;
            }
        } else if c == 44 && !quoted {
            let ghost before = texts(r@);
            let ghost p = part@;
            let ghost later = fields_from(b@.skip(i as int + 1), Seq::empty(), false);
            r.push(part);
            part = String::new();
            proof {
                assert(part@ =~= Seq::empty());
                assert(texts(r@) =~= before.push(p));
                assert(before + (seq![p] + later) =~= before.push(p) + later);
            }
            i = i + 1;
        } else {
            part.push(c as char);
            i = i + 1;
        }
    }
    let ghost before = texts(r@);
    let ghost p = part@;
    r.push(part);
    proof {
        assert(texts(r@) =~= before + seq![p]);
    }
    r
}

// ---------------------------------------------------------------------------
// Laws
// ---------------------------------------------------------------------------

/// The bytes of an ASCII text.
spec fn ascii_bytes(s: Seq<char>) -> Seq<u8> {
    s.map_values(|c: char| c as u8)
}

proof fn lemma_ascii_bytes(s: Seq<char>)
    requires
        is_ascii_chars(s),
    ensures
        encode_utf8(s) == ascii_bytes(s),
{
    is_ascii_chars_encode_utf8(s);
    assert(encode_utf8(s) =~= ascii_bytes(s));
}

proof fn lemma_doubled_front(c: char, s: Seq<char>)
    ensures
        quotes_doubled(seq![c] + s) == (if c == '"' {
            seq!['"', '"']
        } else {
            seq![c]
        }) + quotes_doubled(s),
    decreases s.len(),
{
    let t = seq![c] + s;
    if s.len() == 0 {
        assert(t.drop_last() =~= Seq::empty());
        assert(quotes_doubled(t.drop_last()) =~= Seq::empty());
        assert(quotes_doubled(s) =~= Seq::empty());
        assert(quotes_doubled(t) =~= (if c == '"' {
            seq!['"', '"']
        } else {
            seq![c]
        }) + quotes_doubled(s));
    } else {
        assert(t.drop_last() =~= seq![c] + s.drop_last());
        assert(t.last() == s.last());
        lemma_doubled_front(c, s.drop_last());
        assert(quotes_doubled(t) =~= (if c == '"' {
            seq!['"', '"']
        } else {
            seq![c]
        }) + quotes_doubled(s));
    }
}

/// Inside quotes, a text with its quotes doubled is read as the text.
proof fn lemma_read_quoted(s: Seq<char>, rest: Seq<u8>, part: Seq<char>)
    requires
        is_ascii_chars(s),
        rest.len() > 0 ==> rest[0] != 34,
    ensures
        fields_from(ascii_bytes(quotes_doubled(s)) + seq![34u8] + rest, part, true) == fields_from(
            rest,
            part + s,
            false,
        ),
    decreases s.len(),
{
    if s.len() == 0 {
        let b = ascii_bytes(quotes_doubled(s)) + seq![34u8] + rest;
        assert(ascii_bytes(quotes_doubled(s)) =~= Seq::empty());
        assert(b =~= seq![34u8] + rest);
        assert(b.skip(1) =~= rest);
        assert(part + s =~= part);
        if b.len() > 1 {
            assert(b[1] == rest[0]);
        }
    } else {
        let c = s[0];
        let tail = s.drop_first();
        assert(s =~= seq![c] + tail);
        lemma_doubled_front(c, tail);
        assert(is_ascii_chars(tail)) by {
            assert forall|i: int| 0 <= i < tail.len() implies tail[i] as nat <= 127 by {
                assert(tail[i] == s[i + 1]);
            }
        }
        let b = ascii_bytes(quotes_doubled(s)) + seq![34u8] + rest;
        let later = ascii_bytes(quotes_doubled(tail)) + seq![34u8] + rest;
        if c == '"' {
            lemma_read_quoted(tail, rest, part.push('"'));
            assert(b =~= seq![34u8, 34u8] + later);
            assert(b.skip(2) =~= later);
            assert(part.push('"') + tail =~= part + s);
        } else {
            lemma_read_quoted(tail, rest, part.push(c));
            assert(b =~= seq![c as u8] + later);
            assert(b.skip(1) =~= later);
            assert(b[0] == c as u8);
            assert(s[0] as nat <= 127);
            assert((c as u8) as char == c);
            assert(part.push(c) + tail =~= part + s);
        }
    }
}

/// Outside quotes, a text without quotes and commas is read as it is.
proof fn lemma_read_plain(s: Seq<char>, rest: Seq<u8>, part: Seq<char>)
    requires
        is_ascii_chars(s),
        !s.contains('"'),
        !s.contains(','),
    ensures
        fields_from(ascii_bytes(s) + rest, part, false) == fields_from(rest, part + s, false),
    decreases s.len(),
{
    if s.len() == 0 {
        assert(ascii_bytes(s) + rest =~= rest);
        assert(part + s =~= part);
    } else {
        let c = s[0];
        let tail = s.drop_first();
        assert(s.contains(c));
        assert(is_ascii_chars(tail)) by {
            assert forall|i: int| 0 <= i < tail.len() implies tail[i] as nat <= 127 by {
                assert(tail[i] == s[i + 1]);
            }
        }
        assert forall|x: char| tail.contains(x) implies s.contains(x) by {
            let k = tail.index_of(x);
            assert(s[k + 1] == x);
        }
        lemma_read_plain(tail, rest, part.push(c));
        let b = ascii_bytes(s) + rest;
        assert(b.skip(1) =~= ascii_bytes(tail) + rest);
        assert(b[0] == c as u8);
        assert(s[0] as nat <= 127);
        assert((c as u8) as char == c);
        assert(part.push(c) + tail =~= part + s);
    }
}

proof fn lemma_undoubled(s: Seq<char>)
    requires
        !s.contains('"'),
    ensures
        quotes_doubled(s) == s,
    decreases s.len(),
{
    if s.len() > 0 {
        assert(s.contains(s[s.len() - 1]));
        assert forall|x: char| s.drop_last().contains(x) implies s.contains(x) by {
            let k = s.drop_last().index_of(x);
            assert(s[k] == x);
        }
        lemma_undoubled(s.drop_last());
        assert(s.drop_last().push(s.last()) =~= s);
    } else {
        assert(quotes_doubled(s) =~= s);
    }
}

/// A field is read as the text it was made of.
proof fn lemma_read_field(s: Seq<char>, rest: Seq<u8>)
    requires
        is_ascii_chars(s),
        rest.len() > 0 ==> rest[0] == 44,
    ensures
        fields_from(ascii_bytes(csv_field(s)) + rest, Seq::empty(), false) == fields_from(
            rest,
            s,
            false,
        ),
{
    if needs_quotes(s) {
        let body = ascii_bytes(quotes_doubled(s)) + seq![34u8] + rest;
        let b = ascii_bytes(csv_field(s)) + rest;
        assert(b =~= seq![34u8] + body);
        assert(b.skip(1) =~= body);
        lemma_read_quoted(s, rest, Seq::empty());
        assert(Seq::<char>::empty() + s =~= s);
    } else {
        lemma_undoubled(s);
        lemma_read_plain(s, rest, Seq::empty());
        assert(Seq::<char>::empty() + s =~= s);
    }
}

proof fn lemma_field_ascii(s: Seq<char>)
    requires
        is_ascii_chars(s),
    ensures
        is_ascii_chars(quotes_doubled(s)),
        is_ascii_chars(csv_field(s)),
    decreases s.len(),
{
    if s.len() > 0 {
        let init = s.drop_last();
        assert forall|i: int| 0 <= i < init.len() implies init[i] as nat <= 127 by {
            assert(init[i] == s[i]);
        }
        lemma_field_ascii(init);
        assert(s[s.len() - 1] as nat <= 127);
    }
}

/// The fields of a line, behind the text of the first.
spec fn line_of(fields: Seq<Seq<char>>) -> Seq<char> {
    joined(fields.map_values(|f: Seq<char>| csv_field(f)), seq![','])
}

proof fn lemma_line_front(fields: Seq<Seq<char>>)
    requires
        fields.len() > 1,
    ensures
        line_of(fields) == csv_field(fields[0]) + seq![','] + line_of(fields.drop_first()),
    decreases fields.len(),
{
    let cells = fields.map_values(|f: Seq<char>| csv_field(f));
    let rest = fields.drop_first().map_values(|f: Seq<char>| csv_field(f));
    if fields.len() == 2 {
        assert(cells.drop_last() =~= seq![csv_field(fields[0])]);
        assert(rest =~= seq![csv_field(fields[1])]);
        assert(joined(cells.drop_last(), seq![',']) == csv_field(fields[0]));
    } else {
        let init = fields.drop_last();
        lemma_line_front(init);
        assert(init.map_values(|f: Seq<char>| csv_field(f)) =~= cells.drop_last());
        assert(init.drop_first().map_values(|f: Seq<char>| csv_field(f)) =~= rest.drop_last());
        assert(rest.last() == cells.last());
        assert(line_of(fields) =~= csv_field(fields[0]) + seq![','] + line_of(
            fields.drop_first(),
        ));
    }
}

proof fn lemma_line_ascii(fields: Seq<Seq<char>>)
    requires
        forall|i: int| 0 <= i < fields.len() ==> is_ascii_chars(#[trigger] fields[i]),
    ensures
        is_ascii_chars(line_of(fields)),
    decreases fields.len(),
{
    if fields.len() == 1 {
        lemma_field_ascii(fields[0]);
    } else if fields.len() > 1 {
        let tail = fields.drop_first();
        assert forall|i: int| 0 <= i < tail.len() implies is_ascii_chars(#[trigger] tail[i]) by {
            assert(tail[i] == fields[i + 1]);
        }
        lemma_line_ascii(tail);
        lemma_field_ascii(fields[0]);
        lemma_line_front(fields);
    }
}

/// The fields of a line that was made of ASCII texts are those texts. (The
/// bytes of other characters are read one by one, and not put together again.)
pub proof fn law_csv_round_trip(fields: Seq<Seq<char>>)
    requires
        fields.len() > 0,
        forall|i: int| 0 <= i < fields.len() ==> is_ascii_chars(#[trigger] fields[i]),
    ensures
        csv_fields(joined(fields.map_values(|f: Seq<char>| csv_field(f)), seq![','])) == fields,
    decreases fields.len(),
{
    let line = line_of(fields);
    lemma_line_ascii(fields);
    lemma_ascii_bytes(line);
    if fields.len() == 1 {
        let none = Seq::<u8>::empty();
        lemma_read_field(fields[0], none);
        assert(line == csv_field(fields[0]));
        assert(ascii_bytes(line) + none =~= ascii_bytes(line));
        assert(seq![fields[0]] =~= fields);
    } else {
        let tail = fields.drop_first();
        assert forall|i: int| 0 <= i < tail.len() implies is_ascii_chars(#[trigger] tail[i]) by {
            assert(tail[i] == fields[i + 1]);
        }
        law_csv_round_trip(tail);
        lemma_line_front(fields);
        lemma_line_ascii(tail);
        lemma_ascii_bytes(line_of(tail));
        let rest = seq![44u8] + ascii_bytes(line_of(tail));
        assert(ascii_bytes(line) =~= ascii_bytes(csv_field(fields[0])) + rest);
        lemma_read_field(fields[0], rest);
        assert(rest.skip(1) =~= ascii_bytes(line_of(tail)));
        assert(seq![fields[0]] + tail =~= fields);
    }
}

} // verus!
