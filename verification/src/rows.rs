//! The lines of a text with their endings, and the text that such lines make up.
use vstd::prelude::*;
use vstd::string::*;

use crate::search::{
    at, ends_with, find, lemma_at_char, lemma_find, lemma_first_char, lemma_no_char,
    without_suffix,
};
use crate::split::{full_lines, replace_all};
use crate::text::owned;

verus! {

/// The end of a line: a line feed, with or without a carriage return before it, or nothing.
pub open spec fn line_ending(line: Seq<char>) -> Seq<char> {
    if ends_with(line, "\r\n"@) {
        "\r\n"@
    } else if ends_with(line, "\n"@) {
        "\n"@
    } else {
        ""@
    }
}

/// A line without its ending.
pub open spec fn line_body(line: Seq<char>) -> Seq<char> {
    line.take(line.len() - line_ending(line).len())
}

/// A line without its ending, and the ending.
pub fn body_and_ending(line: &str) -> (r: (String, &'static str))
    ensures
        r.0@ == line_body(line@),
        r.1@ == line_ending(line@),
{
    proof {
        reveal_strlit("");
    }
    let (body, ending): (String, &'static str) = match without_suffix(line, "\r\n") {
        Some(rest) => (rest, "\r\n"),
        None => match without_suffix(line, "\n") {
            Some(rest) => (rest, "\n"),
            None => (owned(line), ""),
        },
    };
    proof {
        assert(body@ =~= line_body(line@));
    }
    (body, ending)
}

/// Lines one behind the other.
pub open spec fn concatenated(rows: Seq<Seq<char>>) -> Seq<char>
    decreases rows.len(),
{
    if rows.len() == 0 {
        seq![]
    } else {
        concatenated(rows.drop_last()) + rows.last()
    }
}

pub proof fn lemma_concatenated_cons(row: Seq<char>, rows: Seq<Seq<char>>)
    ensures
        concatenated(seq![row] + rows) == row + concatenated(rows),
    decreases rows.len(),
{
    let all = seq![row] + rows;
    if rows.len() == 0 {
        assert(all.drop_last() =~= Seq::<Seq<char>>::empty());
        assert(concatenated(all.drop_last()) =~= Seq::<char>::empty());
        assert(concatenated(all) =~= row + concatenated(rows));
    } else {
        assert(all.drop_last() =~= seq![row] + rows.drop_last());
        lemma_concatenated_cons(row, rows.drop_last());
        assert(concatenated(all) =~= row + concatenated(rows));
    }
}

/// The lines of a text with their endings make up the text.
pub proof fn lemma_full_lines(s: Seq<char>)
    ensures
        concatenated(full_lines(s)) == s,
    decreases s.len(),
{
    if s.len() > 0 {
        lemma_find(s, seq!['\n']);
        match find(s, seq!['\n']) {
            Some(i) => {
                lemma_full_lines(s.skip(i + 1));
                lemma_concatenated_cons(s.take(i + 1), full_lines(s.skip(i + 1)));
                assert(s.take(i + 1) + s.skip(i + 1) =~= s);
            },
            None => {
                reveal_with_fuel(concatenated, 2);
                assert(seq![s].drop_last() =~= Seq::<Seq<char>>::empty());
                assert(concatenated(seq![s]) =~= s);
            },
        }
    }
}

/// A line with its ending: there is something of it, and a line feed stands at its end only.
pub open spec fn is_row(row: Seq<char>) -> bool {
    row.len() > 0 && forall|k: int| 0 <= k < row.len() - 1 ==> row[k] != '\n'
}

/// Lines with their endings: all but the last have one.
pub open spec fn are_rows(rows: Seq<Seq<char>>) -> bool {
    &&& forall|i: int| 0 <= i < rows.len() ==> is_row(#[trigger] rows[i])
    &&& forall|i: int| 0 <= i < rows.len() - 1 ==> (#[trigger] rows[i]).last() == '\n'
}

/// A text has no line feed in it.
pub open spec fn has_no_feed(s: Seq<char>) -> bool {
    forall|k: int| 0 <= k < s.len() ==> s[k] != '\n'
}

/// The lines of a text are lines.
pub proof fn lemma_full_lines_are_rows(s: Seq<char>)
    ensures
        are_rows(full_lines(s)),
    decreases s.len(),
{
    if s.len() > 0 {
        let feed = seq!['\n'];
        lemma_find(s, feed);
        match find(s, feed) {
            Some(i) => {
                lemma_at_char(s, '\n', i);
                let rest = s.skip(i + 1);
                lemma_full_lines_are_rows(rest);
                let first = s.take(i + 1);
                assert forall|k: int| 0 <= k < first.len() - 1 implies first[k] != '\n' by {
                    lemma_at_char(s, '\n', k);
                    assert(!at(s, feed, k));
                }
                let all = full_lines(s);
                assert(all =~= seq![first] + full_lines(rest));
                assert forall|j: int| 0 <= j < all.len() implies is_row(#[trigger] all[j]) by {
                    if j > 0 {
                        assert(all[j] == full_lines(rest)[j - 1]);
                    }
                }
                assert forall|j: int| 0 <= j < all.len() - 1 implies (#[trigger] all[j]).last()
                    == '\n' by {
                    if j > 0 {
                        assert(all[j] == full_lines(rest)[j - 1]);
                    }
                }
            },
            None => {
                assert forall|k: int| 0 <= k < s.len() implies s[k] != '\n' by {
                    lemma_at_char(s, '\n', k);
                    assert(!at(s, feed, k));
                }
                assert(full_lines(s) =~= seq![s]);
            },
        }
    }
}

/// The lines of a text that lines make up are those lines.
pub proof fn lemma_rows_are_full_lines(rows: Seq<Seq<char>>)
    requires
        are_rows(rows),
    ensures
        full_lines(concatenated(rows)) == rows,
    decreases rows.len(),
{
    if rows.len() == 0 {
    } else {
        let first = rows[0];
        let rest = rows.skip(1);
        assert(is_row(first));
        assert(rows =~= seq![first] + rest);
        lemma_concatenated_cons(first, rest);
        let s = concatenated(rows);
        assert(s == first + concatenated(rest));
        assert forall|i: int| 0 <= i < rest.len() implies is_row(#[trigger] rest[i]) by {
            assert(rest[i] == rows[i + 1]);
        }
        assert forall|i: int| 0 <= i < rest.len() - 1 implies (#[trigger] rest[i]).last()
            == '\n' by {
            assert(rest[i] == rows[i + 1]);
        }
        lemma_rows_are_full_lines(rest);
        let k = first.len() - 1;
        if first.last() == '\n' {
            assert forall|j: int| 0 <= j < k implies s[j] != '\n' by {
                assert(s[j] == first[j]);
            }
            assert(s[k] == first[k]);
            lemma_first_char(s, '\n', k);
            assert(s.take(k + 1) =~= first);
            assert(s.skip(k + 1) =~= concatenated(rest));
            assert(full_lines(s) =~= rows);
        } else {
            assert(rest.len() == 0);
            assert(s =~= first);
            assert forall|j: int| 0 <= j < s.len() implies s[j] != '\n' by {
                assert(s[j] == first[j]);
            }
            lemma_no_char(s, '\n');
            assert(full_lines(s) =~= rows);
        }
    }
}

/// Replacing by a text without a line feed brings none in.
pub proof fn lemma_replacing_keeps_line(s: Seq<char>, from: Seq<char>, to: Seq<char>)
    requires
        has_no_feed(s),
        has_no_feed(to),
    ensures
        has_no_feed(replace_all(s, from, to)),
    decreases s.len(),
{
    lemma_find(s, from);
    match find(s, from) {
        Some(i) => {
            if from.len() > 0 {
                let rest = s.skip(i + from.len());
                assert(has_no_feed(rest));
                lemma_replacing_keeps_line(rest, from, to);
                assert(has_no_feed(s.take(i)));
            }
        },
        None => {},
    }
}

/// A line is its text and its ending. The text of a line of a file has no line feed in it.
pub proof fn lemma_body_and_ending(row: Seq<char>)
    ensures
        row == line_body(row) + line_ending(row),
        is_row(row) ==> has_no_feed(line_body(row)),
        line_ending(row).len() > 0 ==> row.last() == '\n',
        line_ending(row).len() == 0 ==> row.len() == 0 || row.last() != '\n',
        line_ending(row).len() > 0 ==> line_ending(row).last() == '\n' && forall|k: int|
            0 <= k < line_ending(row).len() - 1 ==> line_ending(row)[k] != '\n',
{
    reveal_strlit("\r\n");
    reveal_strlit("\n");
    reveal_strlit("");
    let n = row.len() as int;
    let ending = line_ending(row);
    if ending.len() > 0 {
        assert(row.subrange(n - ending.len(), n) == ending);
        assert(row =~= line_body(row) + ending);
        assert(row.subrange(n - ending.len(), n)[ending.len() - 1] == row.last());
    } else {
        assert(row =~= line_body(row) + ending);
        if n > 0 && row.last() == '\n' {
            assert(row.subrange(n - 1, n) =~= "\n"@);
            assert(ends_with(row, "\n"@));
        }
    }
}

} // verus!
