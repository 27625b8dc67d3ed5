//! Text as sequences of characters: searching, splitting, trimming, joining
//! and ordering.

use crate::filter::{lemma_filter_start, lemma_filter_step};
use vstd::prelude::*;
use vstd::std_specs::iter::IteratorSpec;
use vstd::utf8::is_ascii_chars;

verus! {

// ---------------------------------------------------------------------------
// Strings and their characters
// ---------------------------------------------------------------------------

/// `String::push` appends one character.
pub assume_specification[ String::push ](s: &mut String, c: char)
    ensures
        final(s)@ == old(s)@.push(c),
;

/// The characters of a string.
pub fn to_chars(s: &str) -> (r: Vec<char>)
    ensures
        r@ == s@,
{
    let mut r: Vec<char> = Vec::new();
    for c in it: s.chars()
        invariant
            it.seq() == s@,
            r@ == s@.take(it.index() as int),
    {
        r.push(c);
    }
    r
}

/// The string made of the given characters.
pub fn from_chars(v: &Vec<char>) -> (r: String)
    ensures
        r@ == v@,
{
    let mut r = String::new();
    let mut i: usize = 0;
    while i < v.len()
        invariant
            i <= v.len(),
            r@ == v@.take(i as int),
        decreases v.len() - i,
    {
        r.push(v[i]);
        i = i + 1;
    }
    r
}

/// Whether two strings hold the same text.
pub fn same(a: &str, b: &str) -> (r: bool)
    ensures
        r == (a@ == b@),
{
    let mut x = a.chars();
    let mut y = b.chars();
    let mut i: Ghost<int> = Ghost(0);
    proof {
        assert(a@.skip(0) =~= a@);
        assert(b@.skip(0) =~= b@);
    }
    loop
        invariant
            0 <= i@ <= a@.len(),
            i@ <= b@.len(),
            x.remaining() == a@.skip(i@),
            y.remaining() == b@.skip(i@),
            a@.take(i@) == b@.take(i@),
        decreases a@.len() - i@,
    {
        match (x.next(), y.next()) {
            (Some(c), Some(d)) => {
                if c != d {
                    proof {
                        assert(a@[i@] == c);
                        assert(b@[i@] == d);
                    }
                    return false;
                }
                proof {
                    assert(a@.skip(i@).drop_first() =~= a@.skip(i@ + 1));
                    assert(b@.skip(i@).drop_first() =~= b@.skip(i@ + 1));
                    assert(a@.take(i@ + 1) =~= a@.take(i@).push(a@[i@]));
                    assert(b@.take(i@ + 1) =~= b@.take(i@).push(b@[i@]));
                    i@ = i@ + 1;
                }
            },
            (None, None) => {
                proof {
                    assert(a@.take(i@) =~= a@);
                    assert(b@.take(i@) =~= b@);
                }
                return true;
            },
            _ => {
                return false;
            },
        }
    }
}

/// Whether a character sequence holds the text of a string.
pub fn chars_same(a: &Vec<char>, b: &str) -> (r: bool)
    ensures
        r == (a@ == b@),
{
    let mut y = b.chars();
    let mut i: usize = 0;
    assert(b@.skip(0) =~= b@);
    while i < a.len()
        invariant
            i <= a@.len(),
            i <= b@.len(),
            y.remaining() == b@.skip(i as int),
            a@.take(i as int) == b@.take(i as int),
        decreases a@.len() - i,
    {
        match y.next() {
            Some(d) => {
                if a[i] != d {
                    assert(a@[i as int] != b@[i as int]);
                    return false;
                }
                proof {
                    assert(b@.skip(i as int).drop_first() =~= b@.skip(i as int + 1));
                    assert(a@.take(i as int + 1) =~= a@.take(i as int).push(a@[i as int]));
                    assert(b@.take(i as int + 1) =~= b@.take(i as int).push(b@[i as int]));
                }
            },
            None => {
                return false;
            },
        }
        i = i + 1;
    }
    proof {
        assert(a@.take(i as int) =~= a@);
        if b@.len() == i {
            assert(b@.take(i as int) =~= b@);
        }
    }
    y.next().is_none()
}

/// The texts of a sequence of strings.
pub open spec fn texts(v: Seq<String>) -> Seq<Seq<char>> {
    v.map_values(|s: String| s@)
}

/// The texts of a sequence of character vectors.
pub open spec fn char_texts(v: Seq<Vec<char>>) -> Seq<Seq<char>> {
    v.map_values(|s: Vec<char>| s@)
}

/// The text of an optional string.
pub open spec fn opt_text(s: Option<String>) -> Option<Seq<char>> {
    match s {
        Some(v) => Some(v@),
        None => None,
    }
}

/// The text of an optional character vector.
pub open spec fn opt_chars(s: Option<Vec<char>>) -> Option<Seq<char>> {
    match s {
        Some(v) => Some(v@),
        None => None,
    }
}

/// The text of an optional string slice.
pub open spec fn opt_str(s: Option<&str>) -> Option<Seq<char>> {
    match s {
        Some(v) => Some(v@),
        None => None,
    }
}

/// Whether one of the strings holds the text.
pub fn any_same(v: &Vec<String>, s: &str) -> (r: bool)
    ensures
        r == texts(v@).contains(s@),
{
    let mut i: usize = 0;
    while i < v.len()
        invariant
            i <= v.len(),
            forall|k: int| 0 <= k < i ==> (#[trigger] v@[k])@ != s@,
        decreases v.len() - i,
    {
        if same(v[i].as_str(), s) {
            assert(texts(v@)[i as int] == s@);
            return true;
        }
        i = i + 1;
    }
    proof {
        if texts(v@).contains(s@) {
            let k = texts(v@).index_of(s@);
            assert(v@[k]@ == s@);
        }
    }
    false
}

/// A copy of an optional string.
pub fn copy_opt(s: &Option<String>) -> (r: Option<String>)
    ensures
        r == *s,
{
    match s {
        Some(v) => Some(v.clone()),
        None => None,
    }
}

/// The parts `from..to` of a character vector.
pub fn slice(s: &Vec<char>, from: usize, to: usize) -> (r: Vec<char>)
    requires
        from <= to <= s.len(),
    ensures
        r@ == s@.subrange(from as int, to as int),
{
    let mut r: Vec<char> = Vec::new();
    let mut i: usize = from;
    while i < to
        invariant
            from <= i <= to <= s.len(),
            r@ == s@.subrange(from as int, i as int),
        decreases to - i,
    {
        r.push(s[i]);
        i = i + 1;
    }
    r
}

/// Appends the characters of `b` to `a`.
pub fn extend(a: &mut Vec<char>, b: &Vec<char>)
    ensures
        final(a)@ == old(a)@ + b@,
{
    let mut i: usize = 0;
    let ghost start = a@;
    while i < b.len()
        invariant
            i <= b.len(),
            a@ == start + b@.take(i as int),
        decreases b.len() - i,
    {
        a.push(b[i]);
        i = i + 1;
    }
    assert(b@.take(b@.len() as int) =~= b@);
}

/// Appends a string to a character vector.
pub fn extend_str(a: &mut Vec<char>, b: &str)
    ensures
        final(a)@ == old(a)@ + b@,
{
    let chars = to_chars(b);
    extend(a, &chars);
}

/// Two texts in a row.
pub fn concat2(a: &str, b: &str) -> (r: String)
    ensures
        r@ == a@ + b@,
{
    let mut out = to_chars(a);
    extend_str(&mut out, b);
    from_chars(&out)
}

/// Three texts in a row.
pub fn concat3(a: &str, b: &str, c: &str) -> (r: String)
    ensures
        r@ == a@ + b@ + c@,
{
    let mut out = to_chars(a);
    extend_str(&mut out, b);
    extend_str(&mut out, c);
    from_chars(&out)
}

/// Four texts in a row.
pub fn concat4(a: &str, b: &str, c: &str, d: &str) -> (r: String)
    ensures
        r@ == a@ + b@ + c@ + d@,
{
    let mut out = to_chars(a);
    extend_str(&mut out, b);
    extend_str(&mut out, c);
    extend_str(&mut out, d);
    from_chars(&out)
}

/// A copy of a character vector.
pub fn copy_chars(s: &Vec<char>) -> (r: Vec<char>)
    ensures
        r@ == s@,
{
    slice(s, 0, s.len())
}

// ---------------------------------------------------------------------------
// Character classes
// ---------------------------------------------------------------------------

pub open spec fn is_digit(c: char) -> bool {
    '0' <= c && c <= '9'
}

pub open spec fn is_upper(c: char) -> bool {
    'A' <= c && c <= 'Z'
}

pub open spec fn is_lower(c: char) -> bool {
    'a' <= c && c <= 'z'
}

/// An ASCII letter or digit.
pub open spec fn is_alphanumeric(c: char) -> bool {
    is_digit(c) || is_upper(c) || is_lower(c)
}

/// The characters with the Unicode property White_Space.
pub open spec fn is_space(c: char) -> bool {
    let n = c as u32;
    ||| 0x9 <= n <= 0xd
    ||| n == 0x20
    ||| n == 0x85
    ||| n == 0xa0
    ||| n == 0x1680
    ||| 0x2000 <= n <= 0x200a
    ||| n == 0x2028
    ||| n == 0x2029
    ||| n == 0x202f
    ||| n == 0x205f
    ||| n == 0x3000
}

/// The lower-case form of an ASCII letter; every other character as it is.
pub open spec fn lower_char(c: char) -> char {
    if is_upper(c) {
        ((c as u8) + 32) as u8 as char
    } else {
        c
    }
}

pub fn digit_test(c: char) -> (r: bool)
    ensures
        r == is_digit(c),
{
    '0' <= c && c <= '9'
}

pub fn alphanumeric_test(c: char) -> (r: bool)
    ensures
        r == is_alphanumeric(c),
{
    ('0' <= c && c <= '9') || ('A' <= c && c <= 'Z') || ('a' <= c && c <= 'z')
}

pub fn space_test(c: char) -> (r: bool)
    ensures
        r == is_space(c),
{
    let n: u32 = c as u32;
    (0x9 <= n && n <= 0xd) || n == 0x20 || n == 0x85 || n == 0xa0 || n == 0x1680 || (0x2000 <= n
        && n <= 0x200a) || n == 0x2028 || n == 0x2029 || n == 0x202f || n == 0x205f || n == 0x3000
}

pub fn lower_one(c: char) -> (r: char)
    ensures
        r == lower_char(c),
{
    if 'A' <= c && c <= 'Z' {
        ((c as u8) + 32) as char
    } else {
        c
    }
}

/// A set of characters that text is split at or trimmed by.
pub enum CharClass {
    /// One character.
    Is(char),
    /// White space.
    Space,
    /// `.` and `+`, between the parts of an archive family.
    DotOrPlus,
    /// Everything but ASCII letters and digits.
    NotAlphanumeric,
}

impl CharClass {
    pub open spec fn has(self, c: char) -> bool {
        match self {
            CharClass::Is(d) => c == d,
            CharClass::Space => is_space(c),
            CharClass::DotOrPlus => c == '.' || c == '+',
            CharClass::NotAlphanumeric => !is_alphanumeric(c),
        }
    }

    pub fn test(&self, c: char) -> (r: bool)
        ensures
            r == self.has(c),
    {
        match self {
            CharClass::Is(d) => c == *d,
            CharClass::Space => space_test(c),
            CharClass::DotOrPlus => c == '.' || c == '+',
            CharClass::NotAlphanumeric => !alphanumeric_test(c),
        }
    }
}

/// The text with its ASCII letters in lower case.
pub open spec fn ascii_lower(s: Seq<char>) -> Seq<char> {
    s.map_values(|c: char| lower_char(c))
}

pub fn to_ascii_lower(s: &Vec<char>) -> (r: Vec<char>)
    ensures
        r@ == ascii_lower(s@),
{
    let mut r: Vec<char> = Vec::new();
    let mut i: usize = 0;
    while i < s.len()
        invariant
            i <= s.len(),
            r@ == ascii_lower(s@.take(i as int)),
        decreases s.len() - i,
    {
        let c = lower_one(s[i]);
        r.push(c);
        i = i + 1;
        assert(s@.take(i as int).drop_last() =~= s@.take(i as int - 1));
    }
    assert(s@.take(i as int) =~= s@);
    r
}

/// The text in lower case, by the rules of Unicode (`str::to_lowercase`).
pub uninterp spec fn unicode_lower(s: Seq<char>) -> Seq<char>;

/// `str::to_lowercase`: a function of the text alone, which on ASCII text maps
/// the letters `A` to `Z` and keeps the rest.
#[verifier::external_body]
pub(crate) fn str_to_lowercase(s: &str) -> (r: String)
    ensures
        r@ == unicode_lower(s@),
        is_ascii_chars(s@) ==> r@ == ascii_lower(s@),
{
    s.to_lowercase()
}

/// The text with one character replaced by another.
pub open spec fn replaced(s: Seq<char>, from: char, to: char) -> Seq<char> {
    s.map_values(|c: char| if c == from { to } else { c })
}

pub fn replace_char(s: &Vec<char>, from: char, to: char) -> (r: Vec<char>)
    ensures
        r@ == replaced(s@, from, to),
{
    let mut r: Vec<char> = Vec::new();
    let mut i: usize = 0;
    while i < s.len()
        invariant
            i <= s.len(),
            r@ == replaced(s@.take(i as int), from, to),
        decreases s.len() - i,
    {
        let c = if s[i] == from { to } else { s[i] };
        r.push(c);
        i = i + 1;
        assert(s@.take(i as int).drop_last() =~= s@.take(i as int - 1));
    }
    assert(s@.take(i as int) =~= s@);
    r
}

/// Whether every character is an ASCII digit.
pub open spec fn all_digits(s: Seq<char>) -> bool {
    forall|i: int| 0 <= i < s.len() ==> is_digit(#[trigger] s[i])
}

/// Whether the characters `from..to` are all ASCII digits.
pub fn digits_between(s: &Vec<char>, from: usize, to: usize) -> (r: bool)
    requires
        from <= to <= s.len(),
    ensures
        r == all_digits(s@.subrange(from as int, to as int)),
{
    let mut i: usize = from;
    while i < to
        invariant
            from <= i <= to <= s.len(),
            forall|k: int| from <= k < i ==> is_digit(#[trigger] s@[k]),
        decreases to - i,
    {
        if !digit_test(s[i]) {
            proof {
                let part = s@.subrange(from as int, to as int);
                assert(part[i - from] == s@[i as int]);
            }
            return false;
        }
        i = i + 1;
    }
    true
}

// ---------------------------------------------------------------------------
// Lengths in bytes
// ---------------------------------------------------------------------------

/// The bytes that a character takes in UTF-8.
pub open spec fn utf8_width(c: char) -> nat {
    let n = c as u32;
    if n < 0x80 {
        1
    } else if n < 0x800 {
        2
    } else if n < 0x10000 {
        3
    } else {
        4
    }
}

/// The bytes that a text takes in UTF-8.
pub open spec fn byte_len(s: Seq<char>) -> nat
    decreases s.len(),
{
    if s.len() == 0 {
        0
    } else {
        byte_len(s.drop_last()) + utf8_width(s.last())
    }
}

/// The text without its last `n` bytes, where a character starts there.
pub open spec fn without_bytes(s: Seq<char>, n: int) -> Option<Seq<char>>
    decreases s.len(),
{
    if n <= 0 {
        Some(s)
    } else if s.len() == 0 || utf8_width(s.last()) > n {
        None
    } else {
        without_bytes(s.drop_last(), n - utf8_width(s.last()))
    }
}

fn width_of(c: char) -> (r: usize)
    ensures
        r == utf8_width(c),
{
    let n: u32 = c as u32;
    if n < 0x80 {
        1
    } else if n < 0x800 {
        2
    } else if n < 0x10000 {
        3
    } else {
        4
    }
}

/// Whether a text takes more than `limit` bytes.
pub fn longer_than(s: &Vec<char>, limit: usize) -> (r: bool)
    ensures
        r == (byte_len(s@) > limit),
{
    let mut left: usize = limit;
    let mut i: usize = 0;
    while i < s.len()
        invariant
            i <= s@.len(),
            left <= limit,
            byte_len(s@.take(i as int)) == limit - left,
        decreases s@.len() - i,
    {
        let w: usize = width_of(s[i]);
        proof {
            assert(s@.take(i as int + 1).drop_last() =~= s@.take(i as int));
            lemma_byte_len_prefix(s@, i as int + 1);
        }
        if w > left {
            return true;
        }
        left = left - w;
        i = i + 1;
    }
    assert(s@.take(i as int) =~= s@);
    false
}

pub proof fn lemma_byte_len_prefix(s: Seq<char>, n: int)
    requires
        0 <= n <= s.len(),
    ensures
        byte_len(s.take(n)) <= byte_len(s),
    decreases s.len(),
{
    if n < s.len() {
        lemma_byte_len_prefix(s.drop_last(), n);
        assert(s.drop_last().take(n) =~= s.take(n));
    } else {
        assert(s.take(n) =~= s);
    }
}

pub fn drop_bytes(s: &Vec<char>, n: usize) -> (r: Option<Vec<char>>)
    ensures
        match r {
            Some(v) => without_bytes(s@, n as int) == Some(v@),
            None => without_bytes(s@, n as int) is None,
        },
{
    let mut left: usize = n;
    let mut end: usize = s.len();
    assert(s@.take(end as int) =~= s@);
    while left > 0
        invariant
            end <= s@.len(),
            without_bytes(s@, n as int) == without_bytes(s@.take(end as int), left as int),
        decreases left,
    {
        if end == 0 {
            return None;
        }
        let w: usize = width_of(s[end - 1]);
        assert(s@.take(end as int).drop_last() =~= s@.take(end as int - 1));
        if w > left {
            return None;
        }
        left = left - w;
        end = end - 1;
    }
    Some(slice(s, 0, end))
}

// ---------------------------------------------------------------------------
// Searching
// ---------------------------------------------------------------------------

/// Whether `p` stands in `s` at index `i`.
pub open spec fn stands_at(s: Seq<char>, p: Seq<char>, i: int) -> bool {
    0 <= i && i + p.len() <= s.len() && s.subrange(i, i + p.len()) == p
}

pub open spec fn starts_with(s: Seq<char>, p: Seq<char>) -> bool {
    stands_at(s, p, 0)
}

pub open spec fn ends_with(s: Seq<char>, p: Seq<char>) -> bool {
    stands_at(s, p, s.len() - p.len())
}

pub open spec fn contains_text(s: Seq<char>, p: Seq<char>) -> bool {
    exists|i: int| #[trigger] stands_at(s, p, i)
}

/// `i` is the least index at which `p` stands in `s`.
pub open spec fn first_at(s: Seq<char>, p: Seq<char>, i: int) -> bool {
    stands_at(s, p, i) && forall|j: int| 0 <= j < i ==> !#[trigger] stands_at(s, p, j)
}

/// `i` is the least index of the character `c` in `s`.
pub open spec fn first_char_at(s: Seq<char>, c: char, i: int) -> bool {
    0 <= i < s.len() && s[i] == c && forall|j: int| 0 <= j < i ==> #[trigger] s[j] != c
}

/// `i` is the greatest index of the character `c` in `s`.
pub open spec fn last_char_at(s: Seq<char>, c: char, i: int) -> bool {
    0 <= i < s.len() && s[i] == c && forall|j: int| i < j < s.len() ==> #[trigger] s[j] != c
}

pub fn stands(s: &Vec<char>, p: &Vec<char>, i: usize) -> (r: bool)
    ensures
        r == stands_at(s@, p@, i as int),
{
    if p.len() > s.len() || i > s.len() - p.len() {
        return false;
    }
    let mut k: usize = 0;
    while k < p.len()
        invariant
            i + p.len() <= s.len(),
            k <= p.len(),
            forall|j: int| 0 <= j < k ==> s@[i + j] == #[trigger] p@[j],
        decreases p.len() - k,
    {
        if s[i + k] != p[k] {
            proof {
                assert(s@.subrange(i as int, i + p@.len())[k as int] != p@[k as int]);
            }
            return false;
        }
        k = k + 1;
    }
    assert(s@.subrange(i as int, i + p@.len()) =~= p@);
    true
}

pub fn has_prefix(s: &Vec<char>, p: &str) -> (r: bool)
    ensures
        r == starts_with(s@, p@),
{
    let p = to_chars(p);
    stands(s, &p, 0)
}

pub fn has_suffix(s: &Vec<char>, p: &str) -> (r: bool)
    ensures
        r == ends_with(s@, p@),
{
    let p = to_chars(p);
    if p.len() > s.len() {
        return false;
    }
    stands(s, &p, s.len() - p.len())
}

/// The least index at which `p` stands in `s`.
pub fn find_text(s: &Vec<char>, p: &str) -> (r: Option<usize>)
    ensures
        match r {
            Some(i) => first_at(s@, p@, i as int),
            None => !contains_text(s@, p@),
        },
{
    let wanted = to_chars(p);
    if wanted.len() > s.len() {
        return None;
    }
    let last: usize = s.len() - wanted.len();
    let mut i: usize = 0;
    loop
        invariant
            wanted@ == p@,
            wanted.len() <= s.len(),
            last == s.len() - wanted.len(),
            i <= last,
            forall|j: int| 0 <= j < i ==> !#[trigger] stands_at(s@, p@, j),
        decreases last - i,
    {
        if stands(s, &wanted, i) {
            return Some(i);
        }
        if i == last {
            return None;
        }
        i = i + 1;
    }
}

/// The least index of a character.
pub fn find_char(s: &Vec<char>, c: char) -> (r: Option<usize>)
    ensures
        match r {
            Some(i) => first_char_at(s@, c, i as int),
            None => !s@.contains(c),
        },
{
    let mut i: usize = 0;
    while i < s.len()
        invariant
            i <= s.len(),
            forall|j: int| 0 <= j < i ==> #[trigger] s@[j] != c,
        decreases s.len() - i,
    {
        if s[i] == c {
            return Some(i);
        }
        i = i + 1;
    }
    None
}

/// The greatest index of a character.
pub fn rfind_char(s: &Vec<char>, c: char) -> (r: Option<usize>)
    ensures
        match r {
            Some(i) => last_char_at(s@, c, i as int),
            None => !s@.contains(c),
        },
{
    let mut i: usize = s.len();
    while i > 0
        invariant
            i <= s.len(),
            forall|j: int| i <= j < s.len() ==> #[trigger] s@[j] != c,
        decreases i,
    {
        i = i - 1;
        if s[i] == c {
            return Some(i);
        }
    }
    None
}

/// The part of a text before the first `c`, or all of it.
pub open spec fn before_first(s: Seq<char>, c: char) -> Seq<char>
    decreases s.len(),
{
    if s.len() == 0 || s[0] == c {
        Seq::empty()
    } else {
        seq![s[0]] + before_first(s.drop_first(), c)
    }
}

pub proof fn lemma_before_first(s: Seq<char>, c: char, i: int)
    requires
        0 <= i <= s.len(),
        forall|j: int| 0 <= j < i ==> #[trigger] s[j] != c,
        i < s.len() ==> s[i] == c,
    ensures
        before_first(s, c) == s.take(i),
    decreases s.len(),
{
    if s.len() == 0 || s[0] == c {
        assert(i == 0);
        assert(s.take(0) =~= Seq::<char>::empty());
    } else {
        let t = s.drop_first();
        assert forall|j: int| 0 <= j < i - 1 implies #[trigger] t[j] != c by {
            assert(s[j + 1] != c);
        }
        lemma_before_first(t, c, i - 1);
        assert(s.take(i) =~= seq![s[0]] + t.take(i - 1));
    }
}

pub fn take_before(s: &Vec<char>, c: char) -> (r: Vec<char>)
    ensures
        r@ == before_first(s@, c),
{
    let end: usize = match find_char(s, c) {
        Some(i) => i,
        None => s.len(),
    };
    proof {
        lemma_before_first(s@, c, end as int);
    }
    slice(s, 0, end)
}

// ---------------------------------------------------------------------------
// Trimming
// ---------------------------------------------------------------------------

/// The text without its leading characters of a class.
pub open spec fn trimmed_start(s: Seq<char>, class: CharClass) -> Seq<char>
    decreases s.len(),
{
    if s.len() > 0 && class.has(s[0]) {
        trimmed_start(s.drop_first(), class)
    } else {
        s
    }
}

/// The text without its trailing characters of a class.
pub open spec fn trimmed_end(s: Seq<char>, class: CharClass) -> Seq<char>
    decreases s.len(),
{
    if s.len() > 0 && class.has(s.last()) {
        trimmed_end(s.drop_last(), class)
    } else {
        s
    }
}

/// The text without its leading and trailing characters of a class.
pub open spec fn trimmed(s: Seq<char>, class: CharClass) -> Seq<char> {
    trimmed_end(trimmed_start(s, class), class)
}

/// What is left of a text without its leading characters of a class is the end
/// of it, and does not start with one.
pub proof fn lemma_trimmed_start(s: Seq<char>, class: CharClass) -> (n: int)
    ensures
        0 <= n <= s.len(),
        trimmed_start(s, class) == s.skip(n),
        n < s.len() ==> !class.has(s[n]),
    decreases s.len(),
{
    if s.len() > 0 && class.has(s[0]) {
        let n = lemma_trimmed_start(s.drop_first(), class);
        assert(s.drop_first().skip(n) =~= s.skip(n + 1));
        n + 1
    } else {
        assert(s.skip(0) =~= s);
        0
    }
}

/// What is left of a text without its trailing characters of a class is the
/// start of it, and does not end with one.
pub proof fn lemma_trimmed_end(s: Seq<char>, class: CharClass) -> (n: int)
    ensures
        0 <= n <= s.len(),
        trimmed_end(s, class) == s.take(n),
        0 < n ==> !class.has(s[n - 1]),
    decreases s.len(),
{
    if s.len() > 0 && class.has(s.last()) {
        let n = lemma_trimmed_end(s.drop_last(), class);
        assert(s.drop_last().take(n) =~= s.take(n));
        n
    } else {
        assert(s.take(s.len() as int) =~= s);
        s.len() as int
    }
}

pub fn trim_start(s: &Vec<char>, class: &CharClass) -> (r: Vec<char>)
    ensures
        r@ == trimmed_start(s@, *class),
{
    let mut i: usize = 0;
    assert(s@.skip(0) =~= s@);
    while i < s.len() && class.test(s[i])
        invariant
            i <= s.len(),
            trimmed_start(s@, *class) == trimmed_start(s@.skip(i as int), *class),
        decreases s.len() - i,
    {
        assert(s@.skip(i as int).drop_first() =~= s@.skip(i as int + 1));
        i = i + 1;
    }
    assert(s@.skip(i as int) =~= s@.subrange(i as int, s@.len() as int));
    slice(s, i, s.len())
}

pub fn trim_end(s: &Vec<char>, class: &CharClass) -> (r: Vec<char>)
    ensures
        r@ == trimmed_end(s@, *class),
{
    let mut i: usize = s.len();
    assert(s@.take(i as int) =~= s@);
    while i > 0 && class.test(s[i - 1])
        invariant
            i <= s.len(),
            trimmed_end(s@, *class) == trimmed_end(s@.take(i as int), *class),
        decreases i,
    {
        assert(s@.take(i as int).drop_last() =~= s@.take(i as int - 1));
        i = i - 1;
    }
    slice(s, 0, i)
}

pub fn trim(s: &Vec<char>, class: &CharClass) -> (r: Vec<char>)
    ensures
        r@ == trimmed(s@, *class),
{
    let t = trim_start(s, class);
    trim_end(&t, class)
}

/// The text without the white space around it.
pub open spec fn stripped(s: Seq<char>) -> Seq<char> {
    trimmed(s, CharClass::Space)
}

pub fn strip(s: &Vec<char>) -> (r: Vec<char>)
    ensures
        r@ == stripped(s@),
{
    trim(s, &CharClass::Space)
}

/// The text without any repetitions of `p` at its start.
pub open spec fn without_prefix(s: Seq<char>, p: Seq<char>) -> Seq<char>
    decreases s.len(),
{
    if p.len() > 0 && starts_with(s, p) {
        without_prefix(s.skip(p.len() as int), p)
    } else {
        s
    }
}

pub fn trim_prefix(s: &Vec<char>, p: &str) -> (r: Vec<char>)
    ensures
        r@ == without_prefix(s@, p@),
{
    let p = to_chars(p);
    if p.len() == 0 {
        return copy_chars(s);
    }
    let mut i: usize = 0;
    assert(s@.skip(0) =~= s@);
    while stands(s, &p, i)
        invariant
            i <= s.len(),
            p.len() > 0,
            without_prefix(s@, p@) == without_prefix(s@.skip(i as int), p@),
        decreases s.len() - i,
    {
        proof {
            let t = s@.skip(i as int);
            assert(t.subrange(0, p@.len() as int) =~= s@.subrange(i as int, i + p@.len()));
            assert(t.skip(p@.len() as int) =~= s@.skip(i + p@.len()));
        }
        i = i + p.len();
    }
    proof {
        let t = s@.skip(i as int);
        if starts_with(t, p@) {
            assert(t.subrange(0, p@.len() as int) =~= s@.subrange(i as int, i + p@.len()));
        }
        assert(t =~= s@.subrange(i as int, s@.len() as int));
    }
    slice(s, i, s.len())
}

// ---------------------------------------------------------------------------
// Splitting and joining
// ---------------------------------------------------------------------------

/// The pieces of a text between the characters of a class.
pub open spec fn pieces(s: Seq<char>, class: CharClass) -> Seq<Seq<char>>
    decreases s.len(),
{
    if s.len() == 0 {
        seq![Seq::empty()]
    } else {
        let init = pieces(s.drop_last(), class);
        if class.has(s.last()) {
            init.push(Seq::empty())
        } else {
            init.drop_last().push(init.last().push(s.last()))
        }
    }
}

pub proof fn lemma_pieces_nonempty(s: Seq<char>, class: CharClass)
    ensures
        pieces(s, class).len() >= 1,
    decreases s.len(),
{
    if s.len() > 0 {
        lemma_pieces_nonempty(s.drop_last(), class);
    }
}

/// No piece holds a character of the class that the text was split at.
pub proof fn lemma_pieces_clean(s: Seq<char>, class: CharClass, k: int, i: int)
    requires
        0 <= k < pieces(s, class).len(),
        0 <= i < pieces(s, class)[k].len(),
    ensures
        !class.has(pieces(s, class)[k][i]),
    decreases s.len(),
{
    if s.len() > 0 {
        lemma_pieces_nonempty(s.drop_last(), class);
        let init = pieces(s.drop_last(), class);
        if k < pieces(s, class).len() - 1 {
            lemma_pieces_clean(s.drop_last(), class, k, i);
        } else if !class.has(s.last()) {
            if i < init.last().len() {
                lemma_pieces_clean(s.drop_last(), class, k, i);
            }
        }
    }
}

/// A text without characters of the class is its only piece.
pub proof fn lemma_pieces_single(s: Seq<char>, class: CharClass)
    requires
        forall|i: int| 0 <= i < s.len() ==> !class.has(#[trigger] s[i]),
    ensures
        pieces(s, class) == seq![s],
    decreases s.len(),
{
    if s.len() > 0 {
        lemma_pieces_single(s.drop_last(), class);
        assert(s.drop_last().push(s.last()) =~= s);
        assert(pieces(s, class) =~= seq![s]);
    } else {
        assert(s =~= Seq::empty());
    }
}

pub fn split(s: &Vec<char>, class: &CharClass) -> (r: Vec<Vec<char>>)
    ensures
        char_texts(r@) == pieces(s@, *class),
        r@.len() >= 1,
{
    let mut r: Vec<Vec<char>> = Vec::new();
    let mut current: Vec<char> = Vec::new();
    let mut i: usize = 0;
    proof {
        assert(char_texts(r@).push(current@) =~= seq![Seq::<char>::empty()]);
        assert(s@.take(0) =~= Seq::<char>::empty());
    }
    while i < s.len()
        invariant
            i <= s.len(),
            char_texts(r@).push(current@) == pieces(s@.take(i as int), *class),
        decreases s.len() - i,
    {
        let c = s[i];
        proof {
            let t = s@.take(i as int + 1);
            assert(t.drop_last() =~= s@.take(i as int));
            assert(t.last() == c);
            let init = pieces(s@.take(i as int), *class);
            assert(init.drop_last() =~= char_texts(r@));
        }
        if class.test(c) {
            let ghost before = char_texts(r@).push(current@);
            r.push(current);
            assert(char_texts(r@) =~= before);
            current = Vec::new();
            assert(current@ =~= Seq::<char>::empty());
        } else {
            current.push(c);
        }
        i = i + 1;
    }
    let ghost before = char_texts(r@).push(current@);
    r.push(current);
    proof {
        assert(char_texts(r@) =~= before);
        assert(s@.take(i as int) =~= s@);
    }
    r
}

/// The non-empty texts of a sequence.
pub open spec fn non_empty(v: Seq<Seq<char>>) -> Seq<Seq<char>> {
    v.filter(|p: Seq<char>| p.len() > 0)
}

/// The non-empty pieces of a text between the characters of a class.
pub open spec fn words(s: Seq<char>, class: CharClass) -> Seq<Seq<char>> {
    non_empty(pieces(s, class))
}

pub fn split_words(s: &Vec<char>, class: &CharClass) -> (r: Vec<Vec<char>>)
    ensures
        char_texts(r@) == words(s@, *class),
{
    let parts = split(s, class);
    let mut r: Vec<Vec<char>> = Vec::new();
    let ghost keep = |p: Seq<char>| p.len() > 0;
    let mut i: usize = 0;
    proof {
        lemma_filter_start(char_texts(parts@), keep);
        assert(char_texts(r@) =~= Seq::empty());
    }
    while i < parts.len()
        invariant
            i <= parts.len(),
            keep == (|p: Seq<char>| p.len() > 0),
            char_texts(r@) == char_texts(parts@).take(i as int).filter(keep),
        decreases parts.len() - i,
    {
        proof {
            lemma_filter_step(char_texts(parts@), keep, i as int);
        }
        if parts[i].len() > 0 {
            let ghost before = char_texts(r@);
            let part = copy_chars(&parts[i]);
            r.push(part);
            assert(char_texts(r@) =~= before.push(part@));
        }
        i = i + 1;
    }
    assert(char_texts(parts@).take(i as int) =~= char_texts(parts@));
    r
}

/// The texts with a separator between each two.
pub open spec fn joined(parts: Seq<Seq<char>>, sep: Seq<char>) -> Seq<char>
    decreases parts.len(),
{
    if parts.len() == 0 {
        Seq::empty()
    } else if parts.len() == 1 {
        parts[0]
    } else {
        joined(parts.drop_last(), sep) + sep + parts.last()
    }
}

pub fn join(parts: &Vec<Vec<char>>, sep: &str) -> (r: Vec<char>)
    ensures
        r@ == joined(char_texts(parts@), sep@),
{
    let mut r: Vec<char> = Vec::new();
    let mut i: usize = 0;
    while i < parts.len()
        invariant
            i <= parts.len(),
            r@ == joined(char_texts(parts@).take(i as int), sep@),
        decreases parts.len() - i,
    {
        proof {
            let t = char_texts(parts@).take(i as int + 1);
            assert(t.drop_last() =~= char_texts(parts@).take(i as int));
            assert(t.last() == parts@[i as int]@);
        }
        if i > 0 {
            extend_str(&mut r, sep);
        }
        extend(&mut r, &parts[i]);
        i = i + 1;
    }
    assert(char_texts(parts@).take(i as int) =~= char_texts(parts@));
    r
}

/// Splitting a text with a separator in it splits both sides.
pub proof fn lemma_pieces_concat(a: Seq<char>, b: Seq<char>, c: char)
    ensures
        pieces(a + seq![c] + b, CharClass::Is(c)) == pieces(a, CharClass::Is(c)) + pieces(
            b,
            CharClass::Is(c),
        ),
    decreases b.len(),
{
    let class = CharClass::Is(c);
    let s = a + seq![c] + b;
    if b.len() == 0 {
        assert(s.drop_last() =~= a);
        assert(s.last() == c);
        assert(pieces(b, class) =~= seq![Seq::<char>::empty()]);
        assert(pieces(s, class) =~= pieces(a, class) + pieces(b, class));
    } else {
        let t = b.drop_last();
        lemma_pieces_concat(a, t, c);
        assert(s.drop_last() =~= a + seq![c] + t);
        assert(s.last() == b.last());
        lemma_pieces_nonempty(t, class);
        let init = pieces(a + seq![c] + t, class);
        assert(init.last() == pieces(t, class).last());
        assert(pieces(s, class) =~= pieces(a, class) + pieces(b, class));
    }
}

/// Texts without the separator are what splitting their join gives back.
pub proof fn lemma_split_of_join(parts: Seq<Seq<char>>, c: char)
    requires
        parts.len() > 0,
        forall|k: int| 0 <= k < parts.len() ==> !(#[trigger] parts[k]).contains(c),
    ensures
        pieces(joined(parts, seq![c]), CharClass::Is(c)) == parts,
    decreases parts.len(),
{
    let class = CharClass::Is(c);
    let last = parts.last();
    assert(parts[parts.len() - 1] == last);
    assert forall|i: int| 0 <= i < last.len() implies !class.has(#[trigger] last[i]) by {
        assert(last.contains(last[i]));
    }
    lemma_pieces_single(last, class);
    if parts.len() == 1 {
        assert(parts =~= seq![last]);
    } else {
        let init = parts.drop_last();
        assert forall|k: int| 0 <= k < init.len() implies !(#[trigger] init[k]).contains(c) by {
            assert(init[k] == parts[k]);
        }
        lemma_split_of_join(init, c);
        lemma_pieces_concat(joined(init, seq![c]), last, c);
        assert(init + seq![last] =~= parts);
    }
}

// ---------------------------------------------------------------------------
// Lines
// ---------------------------------------------------------------------------

/// A line without the carriage return that ends it.
pub open spec fn without_return(s: Seq<char>) -> Seq<char> {
    if s.len() > 0 && s.last() == '\r' {
        s.drop_last()
    } else {
        s
    }
}

/// The lines of a text: what ends in a line feed, or in a carriage return and
/// a line feed, and what is left behind the last line feed.
pub open spec fn lines_of(s: Seq<char>) -> Seq<Seq<char>> {
    let parts = pieces(s, CharClass::Is('\n'));
    let ended = parts.drop_last().map_values(|p: Seq<char>| without_return(p));
    if parts.last().len() == 0 {
        ended
    } else {
        ended.push(parts.last())
    }
}

pub fn lines(s: &Vec<char>) -> (r: Vec<Vec<char>>)
    ensures
        char_texts(r@) == lines_of(s@),
{
    let parts = split(s, &CharClass::Is('\n'));
    let ghost all = char_texts(parts@);
    let mut r: Vec<Vec<char>> = Vec::new();
    let mut i: usize = 0;
    while i < parts.len() - 1
        invariant
            parts.len() >= 1,
            i <= parts.len() - 1,
            r.len() == i,
            all == char_texts(parts@),
            forall|k: int| 0 <= k < i ==> (#[trigger] r@[k])@ == without_return(all[k]),
        decreases parts.len() - i,
    {
        let part = &parts[i];
        let n: usize = part.len();
        let line = if n > 0 && part[n - 1] == '\r' {
            slice(part, 0, n - 1)
        } else {
            copy_chars(part)
        };
        proof {
            assert(all[i as int] == part@);
            if n > 0 && part@[n - 1] == '\r' {
                assert(line@ =~= part@.drop_last());
            }
        }
        r.push(line);
        i = i + 1;
    }
    let ghost ended = all.drop_last().map_values(|p: Seq<char>| without_return(p));
    assert(char_texts(r@) =~= ended);
    if parts[i].len() > 0 {
        let line = copy_chars(&parts[i]);
        r.push(line);
        assert(char_texts(r@) =~= ended.push(all.last()));
    }
    r
}

// ---------------------------------------------------------------------------
// Order
// ---------------------------------------------------------------------------

/// The order of texts: by the first character in which they differ, a text
/// before its continuations.
pub open spec fn text_lt(a: Seq<char>, b: Seq<char>) -> bool
    decreases a.len(),
{
    if b.len() == 0 {
        false
    } else if a.len() == 0 {
        true
    } else if a[0] != b[0] {
        a[0] < b[0]
    } else {
        text_lt(a.drop_first(), b.drop_first())
    }
}

pub proof fn lemma_text_lt_irreflexive(a: Seq<char>)
    ensures
        !text_lt(a, a),
    decreases a.len(),
{
    if a.len() > 0 {
        lemma_text_lt_irreflexive(a.drop_first());
    }
}

pub proof fn lemma_text_lt_transitive(a: Seq<char>, b: Seq<char>, c: Seq<char>)
    requires
        text_lt(a, b),
        text_lt(b, c),
    ensures
        text_lt(a, c),
    decreases a.len(),
{
    if a.len() > 0 && b.len() > 0 && c.len() > 0 && a[0] == b[0] && b[0] == c[0] {
        lemma_text_lt_transitive(a.drop_first(), b.drop_first(), c.drop_first());
    }
}

pub proof fn lemma_text_lt_total(a: Seq<char>, b: Seq<char>)
    ensures
        text_lt(a, b) || text_lt(b, a) || a == b,
    decreases a.len(),
{
    if a.len() > 0 && b.len() > 0 && a[0] == b[0] {
        lemma_text_lt_total(a.drop_first(), b.drop_first());
        if a.drop_first() == b.drop_first() {
            assert(a =~= seq![a[0]] + a.drop_first());
            assert(b =~= seq![b[0]] + b.drop_first());
        }
    } else if a.len() == 0 && b.len() == 0 {
        assert(a =~= b);
    }
}

pub proof fn lemma_text_lt_asymmetric(a: Seq<char>, b: Seq<char>)
    requires
        text_lt(a, b),
    ensures
        !text_lt(b, a),
        a != b,
{
    lemma_text_lt_irreflexive(a);
    if text_lt(b, a) {
        lemma_text_lt_transitive(a, b, a);
    }
}

/// Whether one string stands before another.
pub fn text_before(a: &str, b: &str) -> (r: bool)
    ensures
        r == text_lt(a@, b@),
{
    let mut x = a.chars();
    let mut y = b.chars();
    let mut i: Ghost<int> = Ghost(0);
    proof {
        assert(a@.skip(0) =~= a@);
        assert(b@.skip(0) =~= b@);
    }
    loop
        invariant
            0 <= i@ <= a@.len(),
            i@ <= b@.len(),
            x.remaining() == a@.skip(i@),
            y.remaining() == b@.skip(i@),
            text_lt(a@, b@) == text_lt(a@.skip(i@), b@.skip(i@)),
        decreases a@.len() - i@,
    {
        match (x.next(), y.next()) {
            (Some(c), Some(d)) => {
                if c != d {
                    return c < d;
                }
                proof {
                    assert(a@.skip(i@).drop_first() =~= a@.skip(i@ + 1));
                    assert(b@.skip(i@).drop_first() =~= b@.skip(i@ + 1));
                    i@ = i@ + 1;
                }
            },
            (None, Some(_)) => {
                return true;
            },
            _ => {
                return false;
            },
        }
    }
}

} // verus!
