//! Laws of what a log comes to.

use crate::logs::{
    class_of, fields_of, json_number, json_text, log_step, log_sum, tail_of, ErrorClass, LogSum,
    LogText,
};
use crate::order::{in_order, Ranked};
use crate::text::{ascii_lower, before_first, lemma_text_lt_total, stripped, text_lt};
use vstd::prelude::*;

verus! {

/// A line of a file that failed counts as a failure, and once more for the
/// class of its reason; the file can be tried again, by the path and with the
/// size that the line gives. It is no event, and tells nothing of how far the
/// copy has come.
pub proof fn law_failure_is_noted(s: LogSum, f: LogText, line: Seq<char>)
    requires
        f.event is None || f.event->0.len() == 0,
        f.action == Some("fail"@),
        f.reason is Some,
        s.classes.dom().finite(),
        forall|c: Seq<char>| #[trigger] s.classes.contains_key(c) ==> s.classes[c] < usize::MAX,
    ensures
        ({
            let r = log_step(s, f, line);
            let class = class_of(f.reason->0);
            &&& r.failures == s.failures + 1
            &&& r.events_seen == s.events_seen
            &&& r.failed_lines == s.failed_lines.push(line)
            &&& r.retries.len() == s.retries.len() + 1
            &&& r.retries.drop_last() == s.retries
            &&& r.retries.last().reason == f.reason->0
            &&& f.rel_path matches Some(p) ==> r.retries.last().rel_path == p
            &&& f.bytes matches Some(n) ==> r.retries.last().bytes == n
            &&& f.bytes is None ==> r.retries.last().bytes == 0
            &&& r.classes.contains_key(class)
            &&& s.classes.contains_key(class) ==> r.classes[class] == s.classes[class] + 1
            &&& !s.classes.contains_key(class) ==> r.classes[class] == 1
            &&& forall|c: Seq<char>|
                c != class ==> (#[trigger] r.classes.contains_key(c) <==> s.classes.contains_key(
                    c,
                )) && r.classes[c] == s.classes[c]
            &&& r.copied_bytes == s.copied_bytes
            &&& r.planned_bytes == s.planned_bytes
            &&& r.completed_files == s.completed_files
            &&& r.planned_files == s.planned_files
            &&& r.failed_files == s.failed_files
        }),
{
    reveal_strlit("copy_progress");
    reveal_strlit("copy_summary");
    let r = log_step(s, f, line);
    assert(r.retries.drop_last() =~= s.retries);
}

/// A failure whose line gives no reason counts as unknown.
pub proof fn law_failure_without_reason(s: LogSum, f: LogText, line: Seq<char>)
    requires
        f.event is None,
        f.action == Some("fail"@),
        f.reason is None,
    ensures
        log_step(s, f, line).retries.last().reason == "unknown"@,
        log_step(s, f, line).classes.contains_key(class_of("unknown"@)),
{
}

/// A report on a copy counts as an event, and the last number that is given of
/// each kind stands: of the files that are completed the one under that name,
/// else that of the files that were copied.
pub proof fn law_reports_are_taken_over(s: LogSum, f: LogText, line: Seq<char>)
    requires
        f.event == Some("copy_progress"@) || f.event == Some("copy_summary"@),
    ensures
        ({
            let r = log_step(s, f, line);
            &&& r.events_seen == s.events_seen + 1
            &&& f.copied_bytes matches Some(n) ==> r.copied_bytes == n
            &&& f.planned_bytes matches Some(n) ==> r.planned_bytes == n
            &&& f.completed_files matches Some(n) ==> r.completed_files == n
            &&& f.completed_files is None ==> (f.copied_files matches Some(n) ==> r.completed_files
                == n)
            &&& f.planned_files matches Some(n) ==> r.planned_files == n
            &&& f.failed_files matches Some(n) ==> r.failed_files == n
            &&& r.failures == s.failures
            &&& r.classes == s.classes
            &&& r.retries == s.retries
            &&& r.failed_lines == s.failed_lines
        }),
{
    reveal_strlit("copy_progress");
    reveal_strlit("copy_summary");
    assert("copy_progress"@.len() > 0 && "copy_summary"@.len() > 0);
}

/// Any other event is counted, and nothing else.
pub proof fn law_other_events_are_counted(s: LogSum, f: LogText, line: Seq<char>, event: Seq<char>)
    requires
        f.event == Some(event),
        event.len() > 0,
        event != "copy_progress"@,
        event != "copy_summary"@,
    ensures
        log_step(s, f, line).events_seen == s.events_seen + 1,
        log_step(s, f, line).failures == s.failures,
        log_step(s, f, line).copied_bytes == s.copied_bytes,
        log_step(s, f, line).planned_bytes == s.planned_bytes,
        log_step(s, f, line).completed_files == s.completed_files,
        log_step(s, f, line).planned_files == s.planned_files,
        log_step(s, f, line).failed_files == s.failed_files,
        log_step(s, f, line).retries == s.retries,
        log_step(s, f, line).classes == s.classes,
{
}

proof fn lemma_before_colon(word: Seq<char>, rest: Seq<char>)
    requires
        !word.contains(':'),
    ensures
        before_first(word + seq![':'] + rest, ':') == word,
        before_first(word, ':') == word,
    decreases word.len(),
{
    let s = word + seq![':'] + rest;
    if word.len() > 0 {
        let tail = word.drop_first();
        assert(word.contains(word[0]));
        assert(s[0] == word[0]);
        assert forall|i: int| 0 <= i < tail.len() implies tail[i] != ':' by {
            assert(word.contains(word[i + 1]));
        }
        lemma_before_colon(tail, rest);
        assert(s.drop_first() =~= tail + seq![':'] + rest);
        assert(word =~= seq![word[0]] + tail);
    } else {
        assert(s[0] == ':');
        assert(word =~= Seq::empty());
    }
}

/// What a reason says behind its first colon does not change its class; a
/// reason without a colon is its own class.
pub proof fn law_class_is_before_the_colon(word: Seq<char>, rest: Seq<char>)
    requires
        !word.contains(':'),
    ensures
        class_of(word) == ascii_lower(stripped(word)),
        class_of(word + seq![':'] + rest) == class_of(word),
{
    lemma_before_colon(word, rest);
}

/// The end of a log is as many of its last lines as are asked for; all of them
/// where no number is asked for, or there are no more.
pub proof fn law_tail_is_the_end(first: Seq<Seq<char>>, last: Seq<Seq<char>>, tail: usize)
    requires
        last.len() == tail,
    ensures
        tail > 0 ==> tail_of(first + last, tail) == last,
        tail_of(first, 0) == first,
        first.len() <= tail ==> tail_of(first, tail) == first,
{
    if first.len() > 0 {
        assert((first + last).skip(first.len() as int) =~= last);
    } else {
        assert(first + last =~= last);
    }
}

/// The classes of failures are told with the most frequent first; of two that
/// are as frequent, by name.
pub proof fn law_frequent_classes_come_first(v: Seq<ErrorClass>, i: int, j: int)
    requires
        in_order(v),
        0 <= i < j < v.len(),
    ensures
        v[i].count >= v[j].count,
        v[i].count == v[j].count ==> v[i].class@ == v[j].class@ || text_lt(
            v[i].class@,
            v[j].class@,
        ),
{
    lemma_text_lt_total(v[i].class@, v[j].class@);
    assert(!v[j].before(&v[i]));
}

/// What a line of a log holds is read under the names that a copy writes.
pub proof fn law_names_of_fields(line: Seq<char>)
    ensures
        fields_of(line).event == json_text(line, "event"@),
        fields_of(line).action == json_text(line, "action"@),
        fields_of(line).reason == json_text(line, "reason"@),
        fields_of(line).rel_path == json_text(line, "rel_path"@),
        fields_of(line).bytes == json_number(line, "bytes"@),
        fields_of(line).copied_bytes == json_number(line, "copied_bytes"@),
        fields_of(line).planned_bytes == json_number(line, "planned_bytes"@),
        fields_of(line).completed_files == json_number(line, "completed_files"@),
        fields_of(line).copied_files == json_number(line, "copied_files"@),
        fields_of(line).planned_files == json_number(line, "planned_files"@),
        fields_of(line).failed_files == json_number(line, "failed_files"@),
{
}

/// A log is summed up line by line, in order, from nothing.
pub proof fn law_lines_are_summed_up(lines: Seq<Seq<char>>, line: Seq<char>)
    ensures
        log_sum(lines.push(line)) == log_step(log_sum(lines), fields_of(line), line),
        log_sum(Seq::empty()).failures == 0,
        log_sum(Seq::empty()).events_seen == 0,
        log_sum(Seq::empty()).retries.len() == 0,
        log_sum(Seq::empty()).copied_bytes == 0,
        log_sum(Seq::empty()).planned_bytes == 0,
        log_sum(Seq::empty()).completed_files == 0,
        log_sum(Seq::empty()).planned_files == 0,
        log_sum(Seq::empty()).failed_files == 0,
{
    assert(lines.push(line).drop_last() =~= lines);
}

} // verus!
