//! The output of running instances: reading it line by line and shortening what tools report.
use vstd::prelude::*;
use vstd::string::*;

use crate::number::{parse_unsigned, parse_up_to};
use crate::paths::{join_path, path_below};
use crate::search::{
    at, behind_last, contains, ends_with, find, has_prefix, has_suffix, lemma_find_from,
    lemma_find_from_is, position, starts_with, tail, text_behind_last, text_has, trim, trim_end_of,
    trim_of, trim_start, trimmed, trimmed_end_of, trimmed_of, trimmed_start,
};
use crate::split::{
    full_lines, lines, split_once, split_text_once, text_full_lines, text_lines, text_words, words,
};
use crate::text::{
    byte_len, char_is_space, chars_of, is_ascii_letter, is_digit, is_space, join, join_texts,
    opt_text, owned, same, text_of, texts, utf8_length,
};
use crate::unicode::{to_unicode_lower, unicode_lower};

verus! {

// ---------------------------------------------------------------------------------------------
// Files
// ---------------------------------------------------------------------------------------------
/// A character that may stand in the name of a file; others become underscores.
pub open spec fn safe_char(c: char) -> char {
    if is_ascii_letter(c) || is_digit(c) || c == '-' || c == '_' {
        c
    } else {
        '_'
    }
}

/// An id as the name of a file.
pub open spec fn safe_name(id: Seq<char>) -> Seq<char> {
    id.map_values(|c: char| safe_char(c))
}

fn safe_file_name(id: &str) -> (out: String)
    ensures
        out@ == safe_name(id@),
{
    let s: Vec<char> = chars_of(id);
    let mut out: Vec<char> = Vec::new();
    let mut i: usize = 0;
    while i < s.len()
        invariant
            i <= s@.len(),
            s@ == id@,
            out@.len() == i,
            forall|k: int| 0 <= k < i ==> #[trigger] out@[k] == safe_char(s@[k]),
        decreases s@.len() - i,
    {
        let c: char = s[i];
        if ('a' <= c && c <= 'z') || ('A' <= c && c <= 'Z') || ('0' <= c && c <= '9') || c == '-'
            || c == '_' {
            out.push(c);
        } else {
            out.push('_');
        }
        i += 1;
    }
    proof {
        assert(out@ =~= safe_name(id@));
    }
    text_of(&out)
}

/// The files of the output of an instance: the output itself, and how far it was read.
pub fn runtime_log_spool_paths(
    data_dir: &str,
    instance_id: &str,
    separator: char,
) -> (r: (String, String))
    ensures
        r.0@ == join_path(
            separator,
            join_path(separator, data_dir@, "runtime-logs"@),
            safe_name(instance_id@) + ".log"@,
        ),
        r.1@ == join_path(
            separator,
            join_path(separator, data_dir@, "runtime-logs"@),
            safe_name(instance_id@) + ".cursor"@,
        ),
{
    let name: String = safe_file_name(instance_id);
    let directory: String = path_below(separator, data_dir, "runtime-logs");
    let log: String = owned(name.as_str()).concat(".log");
    let cursor: String = name.concat(".cursor");
    (
        path_below(separator, directory.as_str(), log.as_str()),
        path_below(separator, directory.as_str(), cursor.as_str()),
    )
}

/// The name of a file has no path separator in it, whatever the id holds.
pub proof fn law_spool_names_stay_in_their_directory(id: Seq<char>)
    ensures
        safe_name(id).len() == id.len(),
        !safe_name(id).contains('/'),
        !safe_name(id).contains('\\'),
        !safe_name(id).contains('.'),
{
}

// ---------------------------------------------------------------------------------------------
// Reading
// ---------------------------------------------------------------------------------------------
/// How far the output of an instance was read, and whether a traceback is being left out.
#[derive(Debug)]
pub struct RuntimeLogCursor {
    pub offset: u64,
    pub suppress_traceback: bool,
}

/// A cursor in the form of earlier releases: the bare offset, or zero.
pub fn plain_cursor(value: &str) -> (cursor: RuntimeLogCursor)
    ensures
        cursor.offset == (match parse_unsigned(trim(value@), u64::MAX as nat) {
            Some(n) => n,
            None => 0,
        }),
        !cursor.suppress_traceback,
{
    let body: String = trimmed(value);
    let offset: u64 = match parse_up_to(body.as_str(), u64::MAX) {
        Some(n) => n,
        None => 0,
    };
    RuntimeLogCursor { offset, suppress_traceback: false }
}

/// Where reading starts: at the cursor, or at the beginning where the file is shorter than that.
pub open spec fn start_offset(cursor: u64, length: u64) -> u64 {
    if cursor <= length {
        cursor
    } else {
        0
    }
}

/// Moves a cursor to where reading starts. A file that has started anew ends a traceback.
pub fn resume(cursor: &mut RuntimeLogCursor, length: u64) -> (start: u64)
    ensures
        start == start_offset(old(cursor).offset, length),
        final(cursor).offset == old(cursor).offset,
        final(cursor).suppress_traceback == (old(cursor).suppress_traceback && start
            == old(cursor).offset),
{
    let start: u64 = if cursor.offset <= length {
        cursor.offset
    } else {
        0
    };
    if start != cursor.offset {
        cursor.suppress_traceback = false;
    }
    start
}

/// The offset behind a line.
pub open spec fn behind_line(offset: u64, line: Seq<char>) -> u64 {
    if offset + byte_len(line) <= u64::MAX {
        (offset + byte_len(line)) as u64
    } else {
        u64::MAX
    }
}

/// A line that is read: it is complete, or incomplete lines count too.
pub open spec fn readable(line: Seq<char>, partial: bool) -> bool {
    partial || ends_with(line, "\n"@)
}

/// The lines, each without its ending and with the offset behind it, up to the first that is not
/// read.
pub open spec fn records(rows: Seq<Seq<char>>, offset: u64, partial: bool) -> Seq<(Seq<char>, u64)>
    decreases rows.len(),
{
    if rows.len() == 0 || !readable(rows[0], partial) {
        seq![]
    } else {
        let next = behind_line(offset, rows[0]);
        seq![(trim_end_of(rows[0], "\r\n"@), next)] + records(rows.skip(1), next, partial)
    }
}

/// The records of a list.
pub open spec fn record_views(list: Seq<(String, u64)>) -> Seq<(Seq<char>, u64)> {
    list.map_values(|r: (String, u64)| (r.0@, r.1))
}

/// Reads the output of an instance from `start` on; `content` is what stands there. An incomplete
/// last line waits, unless `partial` asks for it.
pub fn read_runtime_log_records(content: &str, start: u64, partial: bool) -> (out: Vec<
    (String, u64),
>)
    ensures
        record_views(out@) == records(full_lines(content@), start, partial),
{
    let rows: Vec<String> = text_full_lines(content);
    let ghost all = texts(rows@);
    let mut out: Vec<(String, u64)> = Vec::new();
    let mut position: u64 = start;
    let mut i: usize = 0;
    proof {
        assert(all.skip(0) =~= all);
        assert(record_views(out@) + records(all, start, partial) =~= records(all, start, partial));
    }
    while i < rows.len()
        invariant
            i <= rows@.len(),
            all == texts(rows@),
            all == full_lines(content@),
            records(all, start, partial) == record_views(out@) + records(
                all.skip(i as int),
                position,
                partial,
            ),
        decreases rows@.len() - i,
    {
        let ghost done = record_views(out@);
        let ghost here = position;
        proof {
            assert(all.skip(i as int)[0] == rows@[i as int]@);
            assert(all.skip(i as int).skip(1) =~= all.skip(i + 1));
        }
        if !partial && !has_suffix(rows[i].as_str(), "\n") {
            proof {
                assert(record_views(out@) + Seq::<(Seq<char>, u64)>::empty() =~= record_views(
                    out@,
                ));
            }
            return out;
        }
        let size: u128 = utf8_length(rows[i].as_str());
        position = if size <= (u64::MAX - position) as u128 {
            position + size as u64
        } else {
            u64::MAX
        };
        let line: String = trimmed_end_of(rows[i].as_str(), "\r\n");
        let ghost record = (line@, position);
        out.push((line, position));
        i += 1;
        proof {
            assert(record_views(out@) =~= done.push(record));
            assert(done.push(record) + records(all.skip(i as int), position, partial) =~= done + (
            seq![record] + records(all.skip(i as int), position, partial)));
        }
    }
    proof {
        assert(all.skip(i as int) =~= Seq::<Seq<char>>::empty());
        assert(record_views(out@) + Seq::<(Seq<char>, u64)>::empty() =~= record_views(out@));
    }
    out
}

proof fn lemma_find_feed_in_sum(a: Seq<char>, b: Seq<char>)
    requires
        a.len() > 0,
        a.last() == '\n',
    ensures
        find(a, seq!['\n']) matches Some(k) && 0 <= k < a.len() && find(a + b, seq!['\n']) == Some(
            k,
        ),
{
    let feed = seq!['\n'];
    assert(a.subrange(a.len() - 1, a.len() as int) =~= feed);
    assert(at(a, feed, a.len() - 1));
    lemma_find_from(a, feed, 0);
    let k = find(a, feed)->0;
    assert(find(a, feed) is Some);
    assert((a + b).subrange(k, k + 1) =~= a.subrange(k, k + 1));
    assert(at(a + b, feed, k));
    assert forall|j: int| 0 <= j < k implies !#[trigger] at(a + b, feed, j) by {
        if at(a + b, feed, j) {
            assert(a.subrange(j, j + 1) =~= (a + b).subrange(j, j + 1));
            assert(at(a, feed, j));
        }
    }
    lemma_find_from_is(a + b, feed, 0, k);
}

/// The lines of two texts, the first of which ends with a line, are the lines of the one and the
/// lines of the other.
pub proof fn lemma_full_lines_concat(a: Seq<char>, b: Seq<char>)
    requires
        a.len() == 0 || a.last() == '\n',
    ensures
        full_lines(a + b) == full_lines(a) + full_lines(b),
    decreases a.len(),
{
    if a.len() == 0 {
        assert(a + b =~= b);
        assert(full_lines(a) + full_lines(b) =~= full_lines(b));
    } else {
        lemma_find_feed_in_sum(a, b);
        let k = find(a, seq!['\n'])->0;
        let rest = a.skip(k + 1);
        assert((a + b).take(k + 1) =~= a.take(k + 1));
        assert((a + b).skip(k + 1) =~= rest + b);
        if rest.len() > 0 {
            assert(rest.last() == a.last());
        }
        lemma_full_lines_concat(rest, b);
        assert(seq![a.take(k + 1)] + (full_lines(rest) + full_lines(b)) =~= (seq![a.take(k + 1)]
            + full_lines(rest)) + full_lines(b));
    }
}

/// The offset behind lines.
pub open spec fn behind_lines(offset: u64, rows: Seq<Seq<char>>) -> u64
    decreases rows.len(),
{
    if rows.len() == 0 {
        offset
    } else {
        behind_lines(behind_line(offset, rows[0]), rows.skip(1))
    }
}

proof fn lemma_records_concat(a: Seq<Seq<char>>, b: Seq<Seq<char>>, offset: u64, partial: bool)
    requires
        forall|i: int| 0 <= i < a.len() ==> ends_with(#[trigger] a[i], "\n"@),
    ensures
        records(a + b, offset, partial) == records(a, offset, partial) + records(
            b,
            behind_lines(offset, a),
            partial,
        ),
    decreases a.len(),
{
    if a.len() == 0 {
        assert(a + b =~= b);
        assert(records(a, offset, partial) + records(b, offset, partial) =~= records(
            b,
            offset,
            partial,
        ));
    } else {
        let next = behind_line(offset, a[0]);
        assert((a + b)[0] == a[0]);
        assert((a + b).skip(1) =~= a.skip(1) + b);
        assert forall|i: int| 0 <= i < a.skip(1).len() implies ends_with(
            #[trigger] a.skip(1)[i],
            "\n"@,
        ) by {
            assert(a.skip(1)[i] == a[i + 1]);
        }
        lemma_records_concat(a.skip(1), b, next, partial);
        let first = seq![(trim_end_of(a[0], "\r\n"@), next)];
        assert(first + (records(a.skip(1), next, partial) + records(
            b,
            behind_lines(next, a.skip(1)),
            partial,
        )) =~= (first + records(a.skip(1), next, partial)) + records(
            b,
            behind_lines(next, a.skip(1)),
            partial,
        ));
    }
}

proof fn lemma_lines_of_complete_text(a: Seq<char>, i: int)
    requires
        a.len() == 0 || a.last() == '\n',
        0 <= i < full_lines(a).len(),
    ensures
        ends_with(full_lines(a)[i], "\n"@),
    decreases a.len(),
{
    reveal_strlit("\n");
    if a.len() > 0 {
        lemma_find_feed_in_sum(a, seq![]);
        let k = find(a, seq!['\n'])->0;
        let rest = a.skip(k + 1);
        if rest.len() > 0 {
            assert(rest.last() == a.last());
        }
        if i == 0 {
            let line = a.take(k + 1);
            lemma_find_from(a, seq!['\n'], 0);
            assert(at(a, seq!['\n'], k));
            assert(a.subrange(k, k + 1)[0] == a[k]);
            assert(a[k] == '\n');
            assert(line.subrange(line.len() - 1, line.len() as int) =~= "\n"@);
            assert(full_lines(a)[0] == line);
        } else {
            assert(full_lines(a)[i] == full_lines(rest)[i - 1]);
            lemma_lines_of_complete_text(rest, i - 1);
        }
    }
}

/// Reading resumes behind a complete line: what is read of output in two goes, the first of which
/// ends with a line, is what is read of it in one.
pub proof fn law_reading_resumes_behind_a_line(
    a: Seq<char>,
    b: Seq<char>,
    offset: u64,
    partial: bool,
)
    requires
        a.len() == 0 || a.last() == '\n',
    ensures
        records(full_lines(a + b), offset, partial) == records(full_lines(a), offset, partial)
            + records(full_lines(b), behind_lines(offset, full_lines(a)), partial),
{
    lemma_full_lines_concat(a, b);
    assert forall|i: int| 0 <= i < full_lines(a).len() implies ends_with(
        #[trigger] full_lines(a)[i],
        "\n"@,
    ) by {
        lemma_lines_of_complete_text(a, i);
    }
    lemma_records_concat(full_lines(a), full_lines(b), offset, partial);
}

// ---------------------------------------------------------------------------------------------
// Plain text
// ---------------------------------------------------------------------------------------------
/// The length of the rest of a control sequence: up to the first letter.
pub open spec fn control_len(s: Seq<char>) -> nat
    decreases s.len(),
{
    if s.len() == 0 {
        0
    } else if is_ascii_letter(s[0]) {
        1
    } else {
        1 + control_len(s.skip(1))
    }
}

proof fn lemma_control_len(s: Seq<char>)
    ensures
        control_len(s) <= s.len(),
    decreases s.len(),
{
    if s.len() > 0 && !is_ascii_letter(s[0]) {
        lemma_control_len(s.skip(1));
    }
}

/// A text without the control sequences of a terminal: escape, bracket, and all up to a letter.
pub open spec fn plain_text(s: Seq<char>) -> Seq<char>
    decreases s.len(),
    when s.len() >= 0
    via plain_text_decreases
{
    if s.len() == 0 {
        seq![]
    } else if s[0] == '\u{1b}' && s.len() > 1 && s[1] == '[' {
        plain_text(s.skip(2 + control_len(s.skip(2)) as int))
    } else {
        seq![s[0]] + plain_text(s.skip(1))
    }
}

#[via_fn]
proof fn plain_text_decreases(s: Seq<char>) {
    lemma_control_len(s.skip(2));
}

/// Removes the control sequences of a terminal.
pub fn strip_ansi_codes(value: &str) -> (out: String)
    ensures
        out@ == plain_text(value@),
{
    let s: Vec<char> = chars_of(value);
    let mut out: String = String::new();
    let mut i: usize = 0;
    proof {
        assert(s@.skip(0) =~= s@);
        assert(out@ + plain_text(s@) =~= plain_text(s@));
    }
    while i < s.len()
        invariant
            i <= s@.len(),
            s@ == value@,
            plain_text(s@) == out@ + plain_text(s@.skip(i as int)),
        decreases s@.len() - i,
    {
        let ghost rest = s@.skip(i as int);
        let ghost done = out@;
        proof {
            assert(rest[0] == s@[i as int]);
            if rest.len() > 1 {
                assert(rest[1] == s@[i + 1]);
            }
        }
        if s[i] == '\u{1b}' && s.len() - i > 1 && s[i + 1] == '[' {
            let mut k: usize = i + 2;
            let ghost body = rest.skip(2);
            proof {
                assert(body =~= s@.skip(i + 2));
                assert(body.skip(0) =~= body);
            }
            let mut ended: bool = false;
            while k < s.len() && !ended
                invariant
                    s@ == value@,
                    i + 2 <= k <= s@.len(),
                    body == s@.skip(i + 2),
                    ended ==> control_len(body) == k - i - 2,
                    !ended ==> control_len(body) == (k - i - 2) + control_len(
                        body.skip(k - i - 2),
                    ),
                decreases s@.len() - k,
            {
                let c: char = s[k];
                proof {
                    assert(body.skip(k - i - 2)[0] == c);
                    assert(body.skip(k - i - 2).skip(1) =~= body.skip(k - i - 1));
                }
                k += 1;
                if ('a' <= c && c <= 'z') || ('A' <= c && c <= 'Z') {
                    ended = true;
                }
            }
            proof {
                assert(control_len(body) == k - i - 2);
                assert(rest.skip(2 + control_len(rest.skip(2)) as int) =~= s@.skip(k as int));
            }
            i = k;
        } else {
            out.push(s[i]);
            proof {
                assert(rest.skip(1) =~= s@.skip(i + 1));
                assert(done.push(s@[i as int]) + plain_text(s@.skip(i + 1)) =~= done + (seq![
                    rest[0],
                ] + plain_text(rest.skip(1))));
            }
            i += 1;
        }
    }
    proof {
        assert(s@.skip(i as int) =~= Seq::<char>::empty());
        assert(out@ + plain_text(s@.skip(i as int)) =~= out@);
    }
    out
}

// ---------------------------------------------------------------------------------------------
// Shortening
// ---------------------------------------------------------------------------------------------
/// The value of a field such as `name=` in a record: the word behind it, without the punctuation
/// round it.
pub open spec fn field_value(value: Seq<char>, field: Seq<char>) -> Option<Seq<char>> {
    match find(value, field) {
        None => None,
        Some(i) => {
            let behind = words(value.skip(i + field.len()));
            if behind.len() == 0 {
                None
            } else {
                let item = trim_of(behind[0], ",}'\""@);
                if item.len() == 0 {
                    None
                } else {
                    Some(item)
                }
            }
        },
    }
}

/// The value of a field in a record.
pub fn runtime_log_field(value: &str, field: &str) -> (r: Option<String>)
    ensures
        opt_text(r) == field_value(value@, field@),
{
    match position(value, field) {
        None => None,
        Some(i) => {
            let size: usize = chars_of(field).len();
            let rest: String = tail(value, i + size);
            let behind: Vec<String> = text_words(rest.as_str());
            if behind.len() == 0 {
                return None;
            }
            proof {
                assert(texts(behind@)[0] == behind@[0]@);
            }
            let item: String = trimmed_of(behind[0].as_str(), ",}'\"");
            if item.as_str().is_empty() {
                None
            } else {
                Some(item)
            }
        },
    }
}

/// The type of an exception, without its module.
pub open spec fn exception_type(t: Seq<char>) -> Seq<char> {
    behind_last(
        match split_once(t, ":"@) {
            Some((kind, _)) => kind,
            None => t,
        },
        "."@,
    )
}

/// The last line of a traceback in short: the type of the exception, and what it says.
pub open spec fn exception_summary(clean: Seq<char>) -> Option<Seq<char>> {
    let t = trim(clean);
    let kind = exception_type(t);
    if clean.len() > 0 && is_space(clean[0]) {
        None
    } else if !ends_with(kind, "Error"@) && !ends_with(kind, "Exception"@) && kind
        != "KeyboardInterrupt"@ {
        None
    } else if kind == "TimeoutError"@ {
        Some("Failure reason: TimeoutError (request timeout)"@)
    } else {
        match split_once(t, ":"@) {
            Some((_, detail)) => if trim(detail).len() > 0 {
                Some("Failure reason: "@ + kind + ": "@ + trim(detail))
            } else {
                Some("Failure reason: "@ + kind)
            },
            None => Some("Failure reason: "@ + kind),
        }
    }
}

/// The last line of a traceback in short.
pub fn runtime_exception_summary(value: &str) -> (r: Option<String>)
    ensures
        opt_text(r) == exception_summary(plain_text(value@)),
{
    let clean: String = strip_ansi_codes(value);
    let s: Vec<char> = chars_of(clean.as_str());
    if s.len() > 0 && char_is_space(s[0]) {
        return None;
    }
    let t: String = trimmed(clean.as_str());
    let (kind_text, detail): (String, Option<String>) = match split_text_once(t.as_str(), ":") {
        Some((left, right)) => (left, Some(trimmed(right.as_str()))),
        None => (owned(t.as_str()), None),
    };
    let kind: String = text_behind_last(kind_text.as_str(), ".");
    if !has_suffix(kind.as_str(), "Error") && !has_suffix(kind.as_str(), "Exception") && !same(
        kind.as_str(),
        "KeyboardInterrupt",
    ) {
        return None;
    }
    if same(kind.as_str(), "TimeoutError") {
        return Some(owned("Failure reason: TimeoutError (request timeout)"));
    }
    let summary: String = owned("Failure reason: ").concat(kind.as_str());
    match detail {
        Some(text) => if text.as_str().is_empty() {
            Some(summary)
        } else {
            Some(summary.concat(": ").concat(text.as_str()))
        },
        None => Some(summary),
    }
}

/// What is logged of a record, and whether a traceback is being left out behind it; `lower` is the
/// plain record in lower case. The report of a failed call starts such a traceback; its last line,
/// or a record of something else, ends it.
pub open spec fn compacted(value: Seq<char>, lower: Seq<char>, suppress: bool) -> (
    Option<Seq<char>>,
    bool,
) {
    let clean = plain_text(value);
    if contains(lower, "tool.call.error"@) {
        let name = match field_value(clean, "name="@) {
            Some(n) => n,
            None => "unknown"@,
        };
        (
            Some(
                match field_value(clean, "elapsed_time="@) {
                    Some(elapsed) => "Tool call failed: "@ + name + " ("@ + elapsed + ")"@,
                    None => "Tool call failed: "@ + name,
                },
            ),
            true,
        )
    } else if !suppress {
        (Some(value), false)
    } else if contains(lower, "traceback (most recent call last)"@) || trim(clean).len() == 0 {
        (None, true)
    } else if exception_summary(plain_text(clean)) is Some {
        (exception_summary(plain_text(clean)), false)
    } else if contains(lower, "tool.call.start"@) || contains(lower, "loop.step"@) || contains(
        lower,
        "session.run."@,
    ) || starts_with(trim_start(lower), "info:"@) {
        (Some(value), false)
    } else {
        (None, true)
    }
}

/// What is logged of a record, given the plain record in lower case.
pub fn compact_record(value: &str, lower: &str, suppress_traceback: &mut bool) -> (r: Option<
    String,
>)
    ensures
        (opt_text(r), *final(suppress_traceback)) == compacted(
            value@,
            lower@,
            *old(suppress_traceback),
        ),
{
    let clean: String = strip_ansi_codes(value);
    if text_has(lower, "tool.call.error") {
        *suppress_traceback = true;
        let name: String = match runtime_log_field(clean.as_str(), "name=") {
            Some(n) => n,
            None => owned("unknown"),
        };
        let report: String = owned("Tool call failed: ").concat(name.as_str());
        return match runtime_log_field(clean.as_str(), "elapsed_time=") {
            Some(elapsed) => Some(report.concat(" (").concat(elapsed.as_str()).concat(")")),
            None => Some(report),
        };
    }
    if !*suppress_traceback {
        return Some(owned(value));
    }
    let body: String = trimmed(clean.as_str());
    if text_has(lower, "traceback (most recent call last)") || body.as_str().is_empty() {
        return None;
    }
    match runtime_exception_summary(clean.as_str()) {
        Some(summary) => {
            *suppress_traceback = false;
            return Some(summary);
        },
        None => {},
    }
    let start: String = trimmed_start(lower);
    if text_has(lower, "tool.call.start") || text_has(lower, "loop.step") || text_has(
        lower,
        "session.run.",
    ) || has_prefix(start.as_str(), "info:") {
        *suppress_traceback = false;
        return Some(owned(value));
    }
    None
}

/// What is logged of a record of a running instance. The traceback behind the report of a failed
/// call is left out but for its last line.
pub fn compact_runtime_log_record(value: &str, suppress_traceback: &mut bool) -> (r: Option<String>)
    ensures
        (opt_text(r), *final(suppress_traceback)) == compacted(
            value@,
            unicode_lower(plain_text(value@)),
            *old(suppress_traceback),
        ),
{
    let clean: String = strip_ansi_codes(value);
    let lower: String = to_unicode_lower(clean.as_str());
    compact_record(value, lower.as_str(), suppress_traceback)
}

/// Outside a traceback every record is logged as it is, but for the report of a failed call.
pub proof fn law_records_outside_tracebacks_are_kept(value: Seq<char>, lower: Seq<char>)
    requires
        !contains(lower, "tool.call.error"@),
    ensures
        compacted(value, lower, false) == (Some(value), false),
{
}

/// How grave a record is, by the record in lower case.
pub open spec fn level_of(lower: Seq<char>) -> Seq<char> {
    if contains(lower, "cannot connect to the docker daemon"@) || contains(
        lower,
        "is the docker daemon running"@,
    ) {
        "error"@
    } else if contains(lower, "traceback"@) || contains(lower, "exception"@) || contains(
        lower,
        "error"@,
    ) || contains(lower, "failed"@) || contains(lower, "fatal"@) || contains(lower, "panic"@) {
        "error"@
    } else if contains(lower, "warning"@) || contains(lower, "warn"@) {
        "warning"@
    } else {
        "info"@
    }
}

/// How grave a record is, by the record in lower case.
pub fn stream_level(lower: &str) -> (level: &'static str)
    ensures
        level@ == level_of(lower@),
{
    if text_has(lower, "cannot connect to the docker daemon") || text_has(
        lower,
        "is the docker daemon running",
    ) {
        "error"
    } else if text_has(lower, "traceback") || text_has(lower, "exception") || text_has(
        lower,
        "error",
    ) || text_has(lower, "failed") || text_has(lower, "fatal") || text_has(lower, "panic") {
        "error"
    } else if text_has(lower, "warning") || text_has(lower, "warn") {
        "warning"
    } else {
        "info"
    }
}

/// How grave a record of a running instance is. That it came by the error stream says nothing.
pub fn runtime_stream_level(line: &str) -> (level: &'static str)
    ensures
        level@ == level_of(unicode_lower(line@)),
{
    let lower: String = to_unicode_lower(line);
    stream_level(lower.as_str())
}

// ---------------------------------------------------------------------------------------------
// The end of an output
// ---------------------------------------------------------------------------------------------
/// The last `n` lines of a text.
pub open spec fn last_lines(s: Seq<char>, n: nat) -> Seq<char> {
    let rows = lines(s);
    join(
        if rows.len() <= n {
            rows
        } else {
            rows.skip(rows.len() - n)
        },
        "\n"@,
    )
}

/// The last `n` lines of a text.
pub fn text_last_lines(text: &str, n: usize) -> (out: String)
    ensures
        out@ == last_lines(text@, n as nat),
{
    let mut rows: Vec<String> = text_lines(text);
    let ghost all = texts(rows@);
    if rows.len() > n {
        let start: usize = rows.len() - n;
        let end: Vec<String> = rows.split_off(start);
        proof {
            assert(texts(end@) =~= all.skip(start as int));
        }
        return join_texts(&end, "\n");
    }
    join_texts(&rows, "\n")
}

/// The last lines of the output of an instance, without control sequences.
pub fn read_runtime_log_tail(content: &str, max_lines: usize) -> (out: String)
    ensures
        out@ == last_lines(plain_text(content@), max_lines as nat),
{
    let clean: String = strip_ansi_codes(content);
    text_last_lines(clean.as_str(), max_lines)
}

// ---------------------------------------------------------------------------------------------
// Storing what was read
// ---------------------------------------------------------------------------------------------
/// What of a record goes to the log, and at which level; nothing where the record is left out.
pub fn entry_of_record(cursor: &RuntimeLogCursor, message: &str) -> (r: Option<
    (&'static str, String),
>)
    ensures
        ({
            let (text, _) = compacted(
                message@,
                unicode_lower(plain_text(message@)),
                cursor.suppress_traceback,
            );
            match r {
                Some((level, entry)) => text == Some(entry@) && level@ == level_of(
                    unicode_lower(message@),
                ),
                None => text is None,
            }
        }),
{
    let mut suppress: bool = cursor.suppress_traceback;
    match compact_runtime_log_record(message, &mut suppress) {
        Some(entry) => Some((runtime_stream_level(message), entry)),
        None => None,
    }
}

/// Notes that a record was dealt with. `next` is where the record behind it starts.
pub fn pass_record(cursor: &mut RuntimeLogCursor, message: &str, next: u64)
    ensures
        final(cursor).offset == next,
        final(cursor).suppress_traceback == compacted(
            message@,
            unicode_lower(plain_text(message@)),
            old(cursor).suppress_traceback,
        ).1,
{
    let mut suppress: bool = cursor.suppress_traceback;
    let _entry: Option<String> = compact_runtime_log_record(message, &mut suppress);
    cursor.suppress_traceback = suppress;
    cursor.offset = next;
}

} // verus!
