//! What the log of a copy tells.

use crate::double::{
    divide, double_of, in_parts, lemma_exponent_least, lemma_exponent_most, multiply, of_nat,
    product, quotient, to_parts,
};
use crate::number::{decimal, decimal_chars, fixed, fixed_chars};
use crate::order::{in_order, sort, Ranked};
use crate::text::{
    ascii_lower, before_first, char_texts, extend, extend_str, from_chars, lemma_text_lt_asymmetric,
    lemma_text_lt_irreflexive, lemma_text_lt_total, lemma_text_lt_transitive, lines, lines_of,
    opt_text, same, strip, stripped, take_before, text_before, text_lt, texts, to_ascii_lower,
    to_chars,
};
use crate::textmap::TextMap;
use vstd::arithmetic::power2::{lemma2_to64, lemma2_to64_rest, lemma_pow2_adds};
use vstd::prelude::*;

verus! {

// ---------------------------------------------------------------------------
// Lines
// ---------------------------------------------------------------------------

/// The text at a key of an object in JSON (`serde_json::from_str`,
/// `Value::get`, `Value::as_str`).
pub uninterp spec fn json_text(line: Seq<char>, key: Seq<char>) -> Option<Seq<char>>;

/// The number at a key of an object in JSON (`serde_json::from_str`,
/// `Value::get`, `Value::as_u64`).
pub uninterp spec fn json_number(line: Seq<char>, key: Seq<char>) -> Option<u64>;

/// `serde_json::from_str`, `Value::get` and `Value::as_str`: the text at a key,
/// a function of the line and the key alone. Nothing where the line is no JSON,
/// or no object, or has no text at the key.
#[verifier::external_body]
fn read_text(line: &str, key: &str) -> (r: Option<String>)
    ensures
        opt_text(r) == json_text(line@, key@),
{
    let value: serde_json::Value = serde_json::from_str(line).ok()?;
    Some(value.get(key)?.as_str()?.to_string())
}

/// `serde_json::from_str`, `Value::get` and `Value::as_u64`: the number at a
/// key, a function of the line and the key alone. Nothing where the line is no
/// JSON, or no object, or has no such number at the key.
#[verifier::external_body]
fn read_number(line: &str, key: &str) -> (r: Option<u64>)
    ensures
        r == json_number(line@, key@),
{
    let value: serde_json::Value = serde_json::from_str(line).ok()?;
    value.get(key)?.as_u64()
}

/// What a line of a log holds.
#[derive(Debug)]
pub struct LogFields {
    pub event: Option<String>,
    pub action: Option<String>,
    pub reason: Option<String>,
    pub rel_path: Option<String>,
    pub bytes: Option<u64>,
    pub copied_bytes: Option<u64>,
    pub planned_bytes: Option<u64>,
    pub completed_files: Option<u64>,
    pub copied_files: Option<u64>,
    pub planned_files: Option<u64>,
    pub failed_files: Option<u64>,
}

/// What a line of a log holds, as a value of specifications.
pub struct LogText {
    pub event: Option<Seq<char>>,
    pub action: Option<Seq<char>>,
    pub reason: Option<Seq<char>>,
    pub rel_path: Option<Seq<char>>,
    pub bytes: Option<u64>,
    pub copied_bytes: Option<u64>,
    pub planned_bytes: Option<u64>,
    pub completed_files: Option<u64>,
    pub copied_files: Option<u64>,
    pub planned_files: Option<u64>,
    pub failed_files: Option<u64>,
}

impl LogFields {
    pub open spec fn view(&self) -> LogText {
        LogText {
            event: opt_text(self.event),
            action: opt_text(self.action),
            reason: opt_text(self.reason),
            rel_path: opt_text(self.rel_path),
            bytes: self.bytes,
            copied_bytes: self.copied_bytes,
            planned_bytes: self.planned_bytes,
            completed_files: self.completed_files,
            copied_files: self.copied_files,
            planned_files: self.planned_files,
            failed_files: self.failed_files,
        }
    }
}

/// What a line holds.
pub open spec fn fields_of(line: Seq<char>) -> LogText {
    LogText {
        event: json_text(line, "event"@),
        action: json_text(line, "action"@),
        reason: json_text(line, "reason"@),
        rel_path: json_text(line, "rel_path"@),
        bytes: json_number(line, "bytes"@),
        copied_bytes: json_number(line, "copied_bytes"@),
        planned_bytes: json_number(line, "planned_bytes"@),
        completed_files: json_number(line, "completed_files"@),
        copied_files: json_number(line, "copied_files"@),
        planned_files: json_number(line, "planned_files"@),
        failed_files: json_number(line, "failed_files"@),
    }
}

/// What a line holds.
pub fn read_log_line(line: &str) -> (r: LogFields)
    ensures
        r@ == fields_of(line@),
{
    LogFields {
        event: read_text(line, "event"),
        action: read_text(line, "action"),
        reason: read_text(line, "reason"),
        rel_path: read_text(line, "rel_path"),
        bytes: read_number(line, "bytes"),
        copied_bytes: read_number(line, "copied_bytes"),
        planned_bytes: read_number(line, "planned_bytes"),
        completed_files: read_number(line, "completed_files"),
        copied_files: read_number(line, "copied_files"),
        planned_files: read_number(line, "planned_files"),
        failed_files: read_number(line, "failed_files"),
    }
}

/// The lines at the end of a log; all of them where no number is given.
pub open spec fn tail_of(all: Seq<Seq<char>>, tail: usize) -> Seq<Seq<char>> {
    if tail > 0 && all.len() > tail {
        all.skip(all.len() - tail)
    } else {
        all
    }
}

// ---------------------------------------------------------------------------
// Totals
// ---------------------------------------------------------------------------

/// A file that can be tried again.
#[derive(Debug)]
pub struct RetryRow {
    pub rel_path: String,
    pub reason: String,
    pub bytes: u64,
}

/// A file that can be tried again, as a value of specifications.
pub struct RetryText {
    pub rel_path: Seq<char>,
    pub reason: Seq<char>,
    pub bytes: u64,
}

impl RetryRow {
    pub open spec fn view(&self) -> RetryText {
        RetryText { rel_path: self.rel_path@, reason: self.reason@, bytes: self.bytes }
    }
}

pub open spec fn retry_texts(v: Seq<RetryRow>) -> Seq<RetryText> {
    v.map_values(|r: RetryRow| r@)
}

/// What the lines of a log come to.
#[derive(Debug)]
pub struct LogTotals {
    pub copied_bytes: u64,
    pub planned_bytes: u64,
    pub completed_files: u64,
    pub planned_files: u64,
    pub failed_files: u64,
    pub failures: usize,
    pub events_seen: usize,
    /// How often failures of each class came.
    pub classes: TextMap<usize>,
    pub retries: Vec<RetryRow>,
    /// The lines that tell of failures.
    pub failed_lines: Vec<String>,
}

/// What the lines of a log come to, as a value of specifications.
pub struct LogSum {
    pub copied_bytes: u64,
    pub planned_bytes: u64,
    pub completed_files: u64,
    pub planned_files: u64,
    pub failed_files: u64,
    pub failures: int,
    pub events_seen: int,
    pub classes: Map<Seq<char>, usize>,
    pub retries: Seq<RetryText>,
    pub failed_lines: Seq<Seq<char>>,
}

impl LogTotals {
    pub open spec fn view(&self) -> LogSum {
        LogSum {
            copied_bytes: self.copied_bytes,
            planned_bytes: self.planned_bytes,
            completed_files: self.completed_files,
            planned_files: self.planned_files,
            failed_files: self.failed_files,
            failures: self.failures as int,
            events_seen: self.events_seen as int,
            classes: self.classes@,
            retries: retry_texts(self.retries@),
            failed_lines: texts(self.failed_lines@),
        }
    }

    /// No class came more often than failures did.
    pub open spec fn wf(&self) -> bool {
        &&& self.classes.wf()
        &&& forall|c: Seq<char>|
            #[trigger] self.classes@.contains_key(c) ==> self.classes@[c] <= self.failures
    }
}

/// What nothing comes to.
pub open spec fn no_lines() -> LogSum {
    LogSum {
        copied_bytes: 0,
        planned_bytes: 0,
        completed_files: 0,
        planned_files: 0,
        failed_files: 0,
        failures: 0,
        events_seen: 0,
        classes: Map::empty(),
        retries: Seq::empty(),
        failed_lines: Seq::empty(),
    }
}

/// Whether a line tells of an event other than that of a single file.
pub open spec fn is_event(f: LogText) -> bool {
    f.event matches Some(e) && e.len() > 0
}

/// Whether a line tells of a failure.
pub open spec fn is_failure(f: LogText) -> bool {
    !is_event(f) && f.action == Some("fail"@)
}

/// Whether a line tells how far a copy has come, or what it did.
pub open spec fn is_report(f: LogText) -> bool {
    f.event == Some("copy_progress"@) || f.event == Some("copy_summary"@)
}

/// Why a file failed.
pub open spec fn reason_text(f: LogText) -> Seq<char> {
    match f.reason {
        Some(r) => r,
        None => "unknown"@,
    }
}

/// The class of a failure: its reason up to the first colon, in lower case.
pub open spec fn class_of(reason: Seq<char>) -> Seq<char> {
    ascii_lower(stripped(before_first(reason, ':')))
}

pub open spec fn number_or(n: Option<u64>, other: u64) -> u64 {
    match n {
        Some(n) => n,
        None => other,
    }
}

/// What a further line adds.
pub open spec fn log_step(s: LogSum, f: LogText, line: Seq<char>) -> LogSum {
    if is_failure(f) {
        let class = class_of(reason_text(f));
        let count = if s.classes.contains_key(class) {
            s.classes[class] as int
        } else {
            0
        };
        LogSum {
            failures: s.failures + 1,
            classes: s.classes.insert(class, (count + 1) as usize),
            retries: s.retries.push(
                (RetryText {
                    rel_path: match f.rel_path {
                        Some(p) => p,
                        None => Seq::empty(),
                    },
                    reason: reason_text(f),
                    bytes: number_or(f.bytes, 0),
                }),
            ),
            failed_lines: s.failed_lines.push(line),
            ..s
        }
    } else if is_report(f) {
        LogSum {
            events_seen: s.events_seen + 1,
            copied_bytes: number_or(f.copied_bytes, s.copied_bytes),
            planned_bytes: number_or(f.planned_bytes, s.planned_bytes),
            completed_files: number_or(
                f.completed_files,
                number_or(f.copied_files, s.completed_files),
            ),
            planned_files: number_or(f.planned_files, s.planned_files),
            failed_files: number_or(f.failed_files, s.failed_files),
            ..s
        }
    } else if is_event(f) {
        LogSum { events_seen: s.events_seen + 1, ..s }
    } else {
        s
    }
}

/// What lines come to.
pub open spec fn log_sum(lines: Seq<Seq<char>>) -> LogSum
    decreases lines.len(),
{
    if lines.len() == 0 {
        no_lines()
    } else {
        log_step(log_sum(lines.drop_last()), fields_of(lines.last()), lines.last())
    }
}

fn find_class(reason: &str) -> (r: String)
    ensures
        r@ == class_of(reason@),
{
    let chars = to_chars(reason);
    let first = take_before(&chars, ':');
    let bare = strip(&first);
    from_chars(&to_ascii_lower(&bare))
}

fn is_same(s: &Option<String>, t: &str) -> (r: bool)
    ensures
        r == (opt_text(*s) == Some(t@)),
{
    match s {
        Some(s) => same(s.as_str(), t),
        None => false,
    }
}

fn or_else(n: Option<u64>, other: u64) -> (r: u64)
    ensures
        r == number_or(n, other),
{
    match n {
        Some(n) => n,
        None => other,
    }
}

impl LogTotals {
    pub fn new() -> (r: Self)
        ensures
            r.wf(),
            r@ == no_lines(),
    {
        let r = LogTotals {
            copied_bytes: 0,
            planned_bytes: 0,
            completed_files: 0,
            planned_files: 0,
            failed_files: 0,
            failures: 0,
            events_seen: 0,
            classes: TextMap::new(),
            retries: Vec::new(),
            failed_lines: Vec::new(),
        };
        proof {
            assert(retry_texts(r.retries@) =~= Seq::empty());
            assert(texts(r.failed_lines@) =~= Seq::empty());
        }
        r
    }

    fn note_failure(&mut self, f: &LogFields, line: &str)
        requires
            old(self).wf(),
            old(self).failures < usize::MAX,
            is_failure(f@),
        ensures
            final(self).wf(),
            final(self)@ == log_step(old(self)@, f@, line@),
    {
        let ghost before = *self;
        let reason = match &f.reason {
            Some(r) => r.clone(),
            None => from_chars(&to_chars("unknown")),
        };
        let class = find_class(reason.as_str());
        let ghost c = class@;
        let n: usize = match self.classes.get(class.as_str()) {
            Some(n) => *n,
            None => 0,
        };
        self.failures = self.failures + 1;
        self.classes.insert(class, n + 1);
        let rel_path = match &f.rel_path {
            Some(p) => p.clone(),
            None => {
                let nothing: Vec<char> = Vec::new();
                assert(nothing@ =~= Seq::empty());
                from_chars(&nothing)
            },
        };
        let row = RetryRow { rel_path, reason, bytes: or_else(f.bytes, 0) };
        let ghost text = row@;
        self.retries.push(row);
        self.failed_lines.push(from_chars(&to_chars(line)));
        proof {
            assert(retry_texts(self.retries@) =~= retry_texts(before.retries@).push(text));
            assert(texts(self.failed_lines@) =~= texts(before.failed_lines@).push(line@));
            assert(self@ == log_step(before@, f@, line@));
        }
    }

    /// Takes a line in.
    pub fn note(&mut self, f: &LogFields, line: &str)
        requires
            old(self).wf(),
            old(self).failures < usize::MAX,
            old(self).events_seen < usize::MAX,
        ensures
            final(self).wf(),
            final(self)@ == log_step(old(self)@, f@, line@),
    {
        proof {
            reveal_strlit("copy_progress");
            reveal_strlit("copy_summary");
        }
        let event = match &f.event {
            Some(e) => to_chars(e.as_str()).len() > 0,
            None => false,
        };
        if !event {
            if is_same(&f.action, "fail") {
                self.note_failure(f, line);
            }
            return ;
        }
        self.events_seen = self.events_seen + 1;
        if is_same(&f.event, "copy_progress") || is_same(&f.event, "copy_summary") {
            self.copied_bytes = or_else(f.copied_bytes, self.copied_bytes);
            self.planned_bytes = or_else(f.planned_bytes, self.planned_bytes);
            let copied: u64 = or_else(f.copied_files, self.completed_files);
            self.completed_files = or_else(f.completed_files, copied);
            self.planned_files = or_else(f.planned_files, self.planned_files);
            self.failed_files = or_else(f.failed_files, self.failed_files);
        }
    }
}

/// What a log comes to.
pub fn summarize_log(text: &str, tail: usize) -> (r: LogTotals)
    ensures
        r.wf(),
        r@ == log_sum(tail_of(lines_of(text@), tail)),
{
    let all = lines(&to_chars(text));
    let total: usize = all.len();
    let first: usize = if tail > 0 && total > tail { total - tail } else { 0 };
    let ghost kept = tail_of(lines_of(text@), tail);
    let mut r = LogTotals::new();
    let mut i: usize = first;
    proof {
        assert(char_texts(all@).len() == all@.len());
        assert(kept.take(0) =~= Seq::empty());
        lemma_counts_bound(kept.take(0));
    }
    while i < total
        invariant
            first <= i <= total,
            total == all@.len(),
            char_texts(all@) == lines_of(text@),
            kept == tail_of(lines_of(text@), tail),
            first == (if tail > 0 && total > tail { total - tail } else { 0 }),
            r.wf(),
            r@ == log_sum(kept.take(i - first)),
        decreases total - i,
    {
        let line = from_chars(&all[i]);
        proof {
            assert(char_texts(all@)[i as int] == all@[i as int]@);
            lemma_counts_bound(kept.take(i - first));
            assert(kept.take(i - first + 1).drop_last() =~= kept.take(i - first));
            assert(kept[i - first] == line@);
        }
        let fields = read_log_line(line.as_str());
        r.note(&fields, line.as_str());
        i = i + 1;
    }
    assert(kept.take(total - first) =~= kept);
    r
}

proof fn lemma_counts_bound(lines: Seq<Seq<char>>)
    ensures
        0 <= log_sum(lines).failures <= lines.len(),
        0 <= log_sum(lines).events_seen <= lines.len(),
    decreases lines.len(),
{
    if lines.len() > 0 {
        lemma_counts_bound(lines.drop_last());
    }
}

// ---------------------------------------------------------------------------
// Classes of failures
// ---------------------------------------------------------------------------

/// How often failures of a class came.
#[derive(Debug)]
pub struct ErrorClass {
    pub class: String,
    pub count: usize,
}

impl Ranked for ErrorClass {
    open spec fn is_ranked(&self) -> bool {
        true
    }

    /// The more frequent ones first, and by name where they are as frequent.
    open spec fn before(&self, other: &Self) -> bool {
        self.count > other.count || (self.count == other.count && text_lt(
            self.class@,
            other.class@,
        ))
    }

    proof fn lemma_asymmetric(a: &Self, b: &Self) {
        if a.count == b.count {
            lemma_text_lt_asymmetric(a.class@, b.class@);
        }
    }

    proof fn lemma_negatively_transitive(a: &Self, b: &Self, c: &Self) {
        lemma_text_lt_total(a.class@, b.class@);
        lemma_text_lt_total(b.class@, c.class@);
        if c.before(a) {
            if text_lt(a.class@, b.class@) && text_lt(b.class@, c.class@) {
                lemma_text_lt_transitive(a.class@, b.class@, c.class@);
            }
            if a.count == c.count {
                lemma_text_lt_asymmetric(c.class@, a.class@);
                lemma_text_lt_irreflexive(a.class@);
            }
        }
    }

    fn is_before(&self, other: &Self) -> (r: bool) {
        self.count > other.count || (self.count == other.count && text_before(
            self.class.as_str(),
            other.class.as_str(),
        ))
    }
}

/// Whether these are the classes of a map, one for one.
pub open spec fn lists_classes(v: Seq<ErrorClass>, classes: &TextMap<usize>) -> bool {
    &&& v.len() == classes.key_seq().len()
    &&& forall|i: int|
        0 <= i < v.len() ==> (#[trigger] v[i]).class@ == classes.key_seq()[i] && v[i].count
            == classes.value_seq()[i]
}

/// The classes of failures, the most frequent ones first.
pub fn rank_errors(classes: &TextMap<usize>) -> (r: Vec<ErrorClass>)
    requires
        classes.wf(),
    ensures
        in_order(r@),
        exists|v: Seq<ErrorClass>|
            #[trigger] lists_classes(v, classes) && r@.to_multiset() == v.to_multiset(),
        r@.len() == classes.key_seq().len(),
{
    let mut v: Vec<ErrorClass> = Vec::new();
    let mut i: usize = 0;
    while i < classes.len()
        invariant
            classes.wf(),
            i <= classes.key_seq().len(),
            v@.len() == i,
            forall|k: int|
                0 <= k < i ==> (#[trigger] v@[k]).class@ == classes.key_seq()[k] && v@[k].count
                    == classes.value_seq()[k],
        decreases classes.key_seq().len() - i,
    {
        v.push(ErrorClass { class: classes.key_at(i).clone(), count: *classes.value_at(i) });
        i = i + 1;
    }
    let ghost listed = v@;
    assert(lists_classes(listed, classes));
    let r = sort(v);
    proof {
        broadcast use vstd::seq_lib::group_to_multiset_ensures;
        assert(r@.to_multiset().len() == r@.len());
        assert(listed.to_multiset().len() == listed.len());
    }
    r
}

// ---------------------------------------------------------------------------
// What is told
// ---------------------------------------------------------------------------

/// A part of a whole in hundredths, in double precision, with two digits behind
/// the point.
pub open spec fn percent_text(part: u64, whole: u64) -> Seq<char> {
    if part == 0 || whole == 0 {
        fixed(0, 2)
    } else {
        fixed(
            in_parts(
                quotient(product(of_nat(part as nat), of_nat(100)), of_nat(whole as nat)),
                100,
            ),
            2,
        )
    }
}

fn percent(part: u64, whole: u64) -> (r: Vec<char>)
    ensures
        r@ == percent_text(part, whole),
{
    if part == 0 || whole == 0 {
        return fixed_chars(0, 2);
    }
    let a = double_of(part);
    let hundred = double_of(100);
    let b = double_of(whole);
    let scaled = multiply(&a, &hundred);
    proof {
        lemma2_to64();
        lemma2_to64_rest();
        lemma_exponent_most(part as nat, 1, 0, 64);
        lemma_exponent_least(part as nat, 1, 0, 0, 0);
        lemma_exponent_most(100, 1, 0, 7);
        lemma_exponent_least(100, 1, 0, 0, 0);
        lemma_exponent_most(whole as nat, 1, 0, 64);
        lemma_exponent_least(whole as nat, 1, 0, 0, 0);
        lemma_pow2_adds(53, 53);
        lemma_pow2_adds(52, 52);
        let n = a.m as nat * hundred.m as nat;
        assert(pow2_52() * pow2_52() <= n <= pow2_53() * pow2_53()) by (nonlinear_arith)
            requires
                n == a.m as nat * hundred.m as nat,
                pow2_52() <= a.m <= pow2_53(),
                pow2_52() <= hundred.m <= pow2_53(),
        ;
        lemma_exponent_most(n, 1, a.e + hundred.e, 106);
        lemma_exponent_least(n, 1, a.e + hundred.e, 104, 0);
        lemma_exponent_most(scaled.m as nat, b.m as nat, scaled.e - b.e, 1);
        lemma_exponent_least(scaled.m as nat, b.m as nat, scaled.e - b.e, 0, 1);
    }
    let share = divide(&scaled, &b);
    fixed_chars(to_parts(&share, 100), 2)
}

spec fn pow2_52() -> nat {
    0x10_0000_0000_0000
}

spec fn pow2_53() -> nat {
    0x20_0000_0000_0000
}

/// What is told of a log.
pub open spec fn log_line(t: LogSum, file: Seq<char>) -> Seq<char> {
    "[logs] file="@ + file + " events_seen="@ + decimal(t.events_seen as nat) + " copied="@
        + decimal(t.copied_bytes as nat) + "/"@ + decimal(t.planned_bytes as nat) + " bytes ("@
        + percent_text(t.copied_bytes, t.planned_bytes) + "%) files="@ + decimal(
        t.completed_files as nat,
    ) + "/"@ + decimal(t.planned_files as nat) + " failed="@ + decimal(t.failed_files as nat)
        + " failure_events="@ + decimal(t.failures as nat)
}

/// What is told of a log.
pub fn tell_log(t: &LogTotals, file: &str) -> (r: String)
    ensures
        r@ == log_line(t@, file@),
{
    let mut out = to_chars("[logs] file=");
    extend_str(&mut out, file);
    extend_str(&mut out, " events_seen=");
    extend(&mut out, &decimal_chars(t.events_seen as u128));
    extend_str(&mut out, " copied=");
    extend(&mut out, &decimal_chars(t.copied_bytes as u128));
    extend_str(&mut out, "/");
    extend(&mut out, &decimal_chars(t.planned_bytes as u128));
    extend_str(&mut out, " bytes (");
    extend(&mut out, &percent(t.copied_bytes, t.planned_bytes));
    extend_str(&mut out, "%) files=");
    extend(&mut out, &decimal_chars(t.completed_files as u128));
    extend_str(&mut out, "/");
    extend(&mut out, &decimal_chars(t.planned_files as u128));
    extend_str(&mut out, " failed=");
    extend(&mut out, &decimal_chars(t.failed_files as u128));
    extend_str(&mut out, " failure_events=");
    extend(&mut out, &decimal_chars(t.failures as u128));
    from_chars(&out)
}

/// What is told of a class of failures.
pub open spec fn class_line(c: ErrorClass) -> Seq<char> {
    "[logs errors] class="@ + c.class@ + " count="@ + decimal(c.count as nat)
}

/// What is told of the first classes.
pub fn tell_errors(ranked: &Vec<ErrorClass>, top: usize) -> (r: Vec<String>)
    ensures
        r@.len() == (if top < ranked@.len() {
            top as nat
        } else {
            ranked@.len()
        }),
        forall|i: int| 0 <= i < r@.len() ==> (#[trigger] r@[i])@ == class_line(ranked@[i]),
{
    let mut r: Vec<String> = Vec::new();
    let mut i: usize = 0;
    while i < ranked.len() && i < top
        invariant
            i <= ranked@.len(),
            i <= top,
            r@.len() == i,
            forall|k: int| 0 <= k < i ==> (#[trigger] r@[k])@ == class_line(ranked@[k]),
        decreases ranked@.len() - i,
    {
        let mut out = to_chars("[logs errors] class=");
        extend_str(&mut out, ranked[i].class.as_str());
        extend_str(&mut out, " count=");
        extend(&mut out, &decimal_chars(ranked[i].count as u128));
        r.push(from_chars(&out));
        i = i + 1;
    }
    r
}

// ---------------------------------------------------------------------------
// Laws
// ---------------------------------------------------------------------------

/// Every failure of a log can be tried again, and its line is kept.
pub proof fn law_failures_can_be_retried(lines: Seq<Seq<char>>)
    ensures
        log_sum(lines).retries.len() == log_sum(lines).failures,
        log_sum(lines).failed_lines.len() == log_sum(lines).failures,
    decreases lines.len(),
{
    if lines.len() > 0 {
        law_failures_can_be_retried(lines.drop_last());
    }
}

/// A line that tells of no event and of no failure changes nothing.
pub proof fn law_other_lines_are_passed_over(s: LogSum, f: LogText, line: Seq<char>)
    requires
        !is_event(f),
        !is_failure(f),
    ensures
        log_step(s, f, line) == s,
{
    reveal_strlit("copy_progress");
    reveal_strlit("copy_summary");
}

/// A number that a report does not give stays as it was.
pub proof fn law_missing_numbers_stay(s: LogSum, f: LogText, line: Seq<char>)
    requires
        is_report(f),
        f.copied_bytes is None,
        f.planned_bytes is None,
    ensures
        log_step(s, f, line).copied_bytes == s.copied_bytes,
        log_step(s, f, line).planned_bytes == s.planned_bytes,
{
    reveal_strlit("copy_progress");
    reveal_strlit("copy_summary");
}

} // verus!
