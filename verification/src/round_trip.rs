//! Reading back what was written to an environment file.
use vstd::prelude::*;

use crate::env::{
    assigned, assignment, comment_block, comment_start, env_block, env_entries, env_file, env_fold,
    env_step, value_and_comment, with_inline, EnvProgress, EnvVariableView,
};
use crate::search::{
    at, find, lemma_at_char, lemma_find, lemma_first_char, lemma_trim_empty, lemma_trim_is_trimmed,
    starts_with, trim, trim_end, trim_start, trim_start_of,
};
use crate::split::{drop_return, lines, split_once};
use crate::text::{is_space, join};

verus! {

// ---------------------------------------------------------------------------------------------
// Lines
// ---------------------------------------------------------------------------------------------
/// A text of one line.
pub open spec fn one_line(s: Seq<char>) -> bool {
    forall|i: int| 0 <= i < s.len() ==> s[i] != '\n'
}

/// A line in front of a text is its first line.
proof fn lemma_lines_cons(row: Seq<char>, rest: Seq<char>)
    requires
        one_line(row),
        row.len() > 0 ==> row.last() != '\r',
    ensures
        lines(row + seq!['\n'] + rest) == seq![row] + lines(rest),
{
    let s = row + seq!['\n'] + rest;
    let k = row.len() as int;
    assert forall|j: int| 0 <= j < k implies s[j] != '\n' by {
        assert(s[j] == row[j]);
    }
    lemma_first_char(s, '\n', k);
    assert(s.take(k) =~= row);
    assert(s.skip(k + 1) =~= rest);
}

/// The lines of two texts, the first of which ends a line.
proof fn lemma_lines_concat(a: Seq<char>, b: Seq<char>)
    requires
        a.len() == 0 || a.last() == '\n',
    ensures
        lines(a + b) == lines(a) + lines(b),
    decreases a.len(),
{
    if a.len() == 0 {
        assert(a + b =~= b);
        assert(lines(a) + lines(b) =~= lines(b));
    } else {
        lemma_find(a, seq!['\n']);
        lemma_at_char(a, '\n', a.len() - 1);
        let k = find(a, seq!['\n'])->0;
        lemma_at_char(a, '\n', k);
        assert forall|j: int| 0 <= j < k implies (a + b)[j] != '\n' by {
            lemma_at_char(a, '\n', j);
        }
        lemma_first_char(a + b, '\n', k);
        let rest = a.skip(k + 1);
        if rest.len() > 0 {
            assert(rest.last() == a.last());
        }
        lemma_lines_concat(rest, b);
        assert((a + b).take(k) =~= a.take(k));
        assert((a + b).skip(k + 1) =~= rest + b);
        assert(lines(a) == seq![drop_return(a.take(k))] + lines(rest));
        assert(lines(a + b) =~= lines(a) + lines(b));
    }
}

/// The lines of a text are lines.
proof fn lemma_lines_are_lines(s: Seq<char>)
    ensures
        forall|i: int| 0 <= i < lines(s).len() ==> one_line(#[trigger] lines(s)[i]),
    decreases s.len(),
{
    if s.len() > 0 {
        lemma_find(s, seq!['\n']);
        match find(s, seq!['\n']) {
            Some(k) => {
                lemma_at_char(s, '\n', k);
                assert forall|j: int| 0 <= j < k implies s[j] != '\n' by {
                    lemma_at_char(s, '\n', j);
                }
                lemma_lines_are_lines(s.skip(k + 1));
                let first = drop_return(s.take(k));
                assert(one_line(first));
                assert forall|i: int| 0 <= i < lines(s).len() implies one_line(
                    #[trigger] lines(s)[i],
                ) by {
                    if i > 0 {
                        assert(lines(s)[i] == lines(s.skip(k + 1))[i - 1]);
                    } else {
                        assert(lines(s)[0] == first);
                    }
                }
            },
            None => {
                assert forall|j: int| 0 <= j < s.len() implies s[j] != '\n' by {
                    lemma_at_char(s, '\n', j);
                    if s[j] == '\n' {
                        assert(at(s, seq!['\n'], j));
                    }
                }
                assert(lines(s)[0] == s);
            },
        }
    }
}

/// What is left of a text when white space is taken from its ends is a part of it.
proof fn lemma_trim_is_part(s: Seq<char>)
    ensures
        exists|a: int, b: int|
            0 <= a <= b <= s.len() && trim(s) == #[trigger] s.subrange(a, b),
{
    let t = trim_start(s);
    crate::search::lemma_trim_start_len(s);
    crate::search::lemma_trim_end_len(t);
    let a = s.len() - t.len();
    let b = a + trim(s).len();
    assert(trim(s) =~= s.subrange(a, b));
}

proof fn lemma_trim_keeps_line(s: Seq<char>)
    requires
        one_line(s),
    ensures
        one_line(trim(s)),
{
    lemma_trim_is_part(s);
    let (a, b) = choose|a: int, b: int|
        0 <= a <= b <= s.len() && trim(s) == #[trigger] s.subrange(a, b);
    assert forall|i: int| 0 <= i < trim(s).len() implies trim(s)[i] != '\n' by {
        assert(trim(s)[i] == s[a + i]);
    }
}

/// A text without white space at its ends stays as it is when it is trimmed.
proof fn lemma_trimmed(s: Seq<char>)
    requires
        s.len() > 0 ==> !is_space(s[0]) && !is_space(s.last()),
    ensures
        trim(s) == s,
{
}

// ---------------------------------------------------------------------------------------------
// Reading lines behind others
// ---------------------------------------------------------------------------------------------
/// Reads lines from the first to the last, with what came before them.
pub open spec fn env_fold_from(start: EnvProgress, rows: Seq<Seq<char>>) -> EnvProgress
    decreases rows.len(),
{
    if rows.len() == 0 {
        start
    } else {
        env_step(env_fold_from(start, rows.drop_last()), rows.last())
    }
}

proof fn lemma_fold_concat(a: Seq<Seq<char>>, b: Seq<Seq<char>>)
    ensures
        env_fold(a + b) == env_fold_from(env_fold(a), b),
    decreases b.len(),
{
    if b.len() == 0 {
        assert(a + b =~= a);
    } else {
        lemma_fold_concat(a, b.drop_last());
        assert((a + b).drop_last() =~= a + b.drop_last());
        assert((a + b).last() == b.last());
    }
}

proof fn lemma_fold_from_concat(start: EnvProgress, a: Seq<Seq<char>>, b: Seq<Seq<char>>)
    ensures
        env_fold_from(start, a + b) == env_fold_from(env_fold_from(start, a), b),
    decreases b.len(),
{
    if b.len() == 0 {
        assert(a + b =~= a);
    } else {
        lemma_fold_from_concat(start, a, b.drop_last());
        assert((a + b).drop_last() =~= a + b.drop_last());
        assert((a + b).last() == b.last());
    }
}

// ---------------------------------------------------------------------------------------------
// What was written is read back
// ---------------------------------------------------------------------------------------------
/// A name and a value that one line of an environment file can hold: the name is neither blank nor
/// mistaken for a comment or for the word `export`, and nothing behind the value is taken for a
/// comment.
pub open spec fn fits_a_line(entry: EnvVariableView) -> bool {
    &&& entry.key.len() > 0
    &&& trim(entry.key) == entry.key
    &&& one_line(entry.key)
    &&& forall|i: int| 0 <= i < entry.key.len() ==> entry.key[i] != '='
    &&& entry.key[0] != '#'
    &&& !starts_with(entry.key, "export "@)
    &&& trim(entry.value) == entry.value
    &&& one_line(entry.value)
    &&& comment_start(entry.value, 0, None, false) is None
}

/// The lines of a comment, trimmed.
pub open spec fn comment_rows(comment: Seq<char>) -> Seq<Seq<char>> {
    if trim(comment).len() == 0 {
        seq![]
    } else {
        lines(comment).map_values(|r: Seq<char>| trim(r))
    }
}

/// A comment as it is read back.
pub open spec fn tidy_comment(comment: Seq<char>) -> Seq<char> {
    trim(join(comment_rows(comment), "\n"@))
}

/// A variable as it is read back.
pub open spec fn read_back(entry: EnvVariableView) -> EnvVariableView {
    EnvVariableView {
        comment: tidy_comment(entry.comment),
        source: "template"@,
        modified: false,
        ..entry
    }
}

/// The comment lines that are written.
spec fn written_comments(rows: Seq<Seq<char>>) -> Seq<Seq<char>> {
    rows.map_values(|r: Seq<char>| "# "@ + trim(r))
}

proof fn lemma_comment_line(row: Seq<char>)
    requires
        one_line(row),
    ensures
        one_line("# "@ + trim(row)),
        ("# "@ + trim(row)).last() != '\r',
        ("# "@ + trim(row)).len() > 0,
        starts_with(trim("# "@ + trim(row)), "#"@),
        trim(trim_start_of(trim("# "@ + trim(row)), "#"@)) == trim(row),
{
    reveal_strlit("# ");
    reveal_strlit("#");
    let r = trim(row);
    let line = "# "@ + r;
    lemma_trim_keeps_line(row);
    lemma_trim_is_trimmed(row);
    assert forall|i: int| 0 <= i < line.len() implies line[i] != '\n' by {
        if i >= 2 {
            assert(line[i] == r[i - 2]);
        }
    }
    assert("#"@ =~= seq!['#']);
    assert("#"@.contains('#')) by {
        assert("#"@[0] == '#');
    }
    assert(!"#"@.contains(' '));
    assert(line[0] == '#' && line[1] == ' ');
    assert(!is_space('#'));
    assert(is_space(' '));
    assert(trim_start(line) == line);
    if r.len() == 0 {
        assert(line.last() == ' ');
        assert(line.drop_last() =~= seq!['#']);
        assert(trim_end(line) == trim_end(line.drop_last()));
        assert(trim_end(seq!['#']) == seq!['#']);
        assert(trim(line) == seq!['#']);
        assert(trim(line).subrange(0, 1) =~= "#"@);
        assert(trim(line).skip(1) =~= Seq::<char>::empty());
        assert(trim_start_of(trim(line), "#"@) == trim_start_of(trim(line).skip(1), "#"@));
        assert(trim_start_of(trim(line).skip(1), "#"@) =~= Seq::<char>::empty());
        lemma_trim_empty(Seq::<char>::empty());
        assert(trim(Seq::<char>::empty()) =~= r);
    } else {
        assert(line.last() == r.last());
        assert(trim(line) == line);
        assert(line.subrange(0, 1) =~= "#"@);
        let rest = line.skip(1);
        assert(rest =~= seq![' '] + r);
        assert(rest[0] == ' ');
        assert(trim_start_of(line, "#"@) == trim_start_of(rest, "#"@));
        assert(trim_start_of(rest, "#"@) == rest);
        assert(rest.skip(1) =~= r);
        assert(trim_start(rest) == trim_start(r));
        assert(trim(rest) == trim(r));
    }
}

proof fn lemma_comment_block(rows: Seq<Seq<char>>)
    requires
        forall|i: int| 0 <= i < rows.len() ==> one_line(#[trigger] rows[i]),
    ensures
        lines(comment_block(rows)) == written_comments(rows),
        comment_block(rows).len() == 0 || comment_block(rows).last() == '\n',
    decreases rows.len(),
{
    reveal_strlit("\n");
    if rows.len() == 0 {
        assert(written_comments(rows) =~= Seq::<Seq<char>>::empty());
    } else {
        let first = rows.drop_last();
        let line = "# "@ + trim(rows.last());
        lemma_comment_block(first);
        lemma_comment_line(rows.last());
        assert("\n"@ =~= seq!['\n']);
        let last = line + seq!['\n'] + Seq::<char>::empty();
        lemma_lines_cons(line, Seq::empty());
        assert(comment_block(rows) =~= comment_block(first) + last);
        lemma_lines_concat(comment_block(first), last);
        assert(lines(last) =~= seq![line]);
        assert(written_comments(rows) =~= written_comments(first) + seq![line]);
    }
}

/// The lines of a variable as it is written.
proof fn lemma_env_block(entry: EnvVariableView)
    requires
        fits_a_line(entry),
    ensures
        env_block(entry).last() == '\n',
        env_block(entry).len() > 0,
        lines(env_block(entry)) == (if trim(entry.comment).len() == 0 {
            seq![]
        } else {
            written_comments(lines(entry.comment))
        }) + seq![entry.key + "="@ + entry.value, Seq::<char>::empty()],
{
    reveal_strlit("=");
    reveal_strlit("\n\n");
    let block = if trim(entry.comment).len() == 0 {
        Seq::<char>::empty()
    } else {
        comment_block(lines(entry.comment))
    };
    lemma_lines_are_lines(entry.comment);
    lemma_comment_block(lines(entry.comment));
    let line = entry.key + "="@ + entry.value;
    assert(one_line(line));
    assert(line.last() != '\r') by {
        if entry.value.len() > 0 {
            lemma_trim_is_trimmed(entry.value);
            assert(line.last() == entry.value.last());
        } else {
            assert(line.last() == '=');
        }
    }
    let empty = Seq::<char>::empty();
    lemma_lines_cons(empty, empty);
    lemma_lines_cons(line, empty + seq!['\n'] + empty);
    let tail = line + seq!['\n'] + (empty + seq!['\n'] + empty);
    assert(tail =~= line + "\n\n"@);
    assert(env_block(entry) =~= block + tail);
    lemma_lines_concat(block, tail);
    assert(lines(empty + seq!['\n'] + empty) =~= seq![empty]);
    assert(lines(tail) =~= seq![line, empty]);
    assert(lines(empty) =~= Seq::<Seq<char>>::empty());
}

/// Reading comment lines adds them to the comment of the next variable.
proof fn lemma_read_comments(start: EnvProgress, rows: Seq<Seq<char>>)
    requires
        forall|i: int| 0 <= i < rows.len() ==> one_line(#[trigger] rows[i]),
    ensures
        env_fold_from(start, written_comments(rows)) == (EnvProgress {
            entries: start.entries,
            comments: start.comments + rows.map_values(|r: Seq<char>| trim(r)),
        }),
    decreases rows.len(),
{
    let trimmed = rows.map_values(|r: Seq<char>| trim(r));
    if rows.len() == 0 {
        assert(start.comments + trimmed =~= start.comments);
    } else {
        let first = rows.drop_last();
        lemma_read_comments(start, first);
        lemma_comment_line(rows.last());
        assert(written_comments(rows).drop_last() =~= written_comments(first));
        assert(written_comments(rows).last() == "# "@ + trim(rows.last()));
        assert(start.comments + trimmed =~= (start.comments + first.map_values(
            |r: Seq<char>| trim(r),
        )).push(trim(rows.last())));
    }
}

/// A line with a name and a value is read as such.
proof fn lemma_read_assignment(start: EnvProgress, entry: EnvVariableView)
    requires
        fits_a_line(entry),
    ensures
        env_step(start, entry.key + "="@ + entry.value) == (EnvProgress {
            entries: start.entries.push(
                EnvVariableView {
                    comment: trim(join(start.comments, "\n"@)),
                    source: "template"@,
                    modified: false,
                    ..entry
                },
            ),
            comments: seq![],
        }),
{
    reveal_strlit("=");
    reveal_strlit("#");
    reveal_strlit("export ");
    let key = entry.key;
    let line = key + "="@ + entry.value;
    lemma_trim_is_trimmed(key);
    lemma_trim_is_trimmed(entry.value);
    assert(line[0] == key[0]);
    assert(line[key.len() as int] == '=');
    assert(!is_space('='));
    if entry.value.len() > 0 {
        assert(line.last() == entry.value.last());
    } else {
        assert(line.last() == '=');
    }
    lemma_trimmed(line);
    assert(!starts_with(line, "#"@)) by {
        if starts_with(line, "#"@) {
            assert(line.subrange(0, 1)[0] == "#"@[0]);
        }
    }
    assert(!starts_with(line, "export "@)) by {
        if starts_with(line, "export "@) {
            let e = "export "@;
            if key.len() < 7 {
                assert(line.subrange(0, 7)[key.len() as int] == e[key.len() as int]);
                assert(e[0] == 'e' && e[1] == 'x' && e[2] == 'p' && e[3] == 'o' && e[4] == 'r'
                    && e[5] == 't' && e[6] == ' ');
            } else {
                assert(key.subrange(0, 7) =~= line.subrange(0, 7));
            }
        }
    }
    assert("="@ =~= seq!['=']);
    lemma_first_char(line, '=', key.len() as int);
    assert(line.take(key.len() as int) =~= key);
    assert(line.skip(key.len() as int + 1) =~= entry.value);
    assert(split_once(assignment(line), "="@) == Some((key, entry.value)));
    assert(with_inline(start.comments, None) == start.comments);
}

/// Reading the lines of a variable gives the variable.
proof fn lemma_read_block(start: EnvProgress, entry: EnvVariableView)
    requires
        fits_a_line(entry),
        start.comments.len() == 0,
    ensures
        env_fold_from(start, lines(env_block(entry))) == (EnvProgress {
            entries: start.entries.push(read_back(entry)),
            comments: seq![],
        }),
{
    reveal_strlit("\n");
    let rows = if trim(entry.comment).len() == 0 {
        Seq::<Seq<char>>::empty()
    } else {
        lines(entry.comment)
    };
    let empty = Seq::<char>::empty();
    let line = entry.key + "="@ + entry.value;
    lemma_lines_are_lines(entry.comment);
    lemma_env_block(entry);
    lemma_read_comments(start, rows);
    assert(written_comments(Seq::<Seq<char>>::empty()) =~= Seq::<Seq<char>>::empty());
    assert(lines(env_block(entry)) =~= written_comments(rows) + seq![line, empty]);
    lemma_fold_from_concat(start, written_comments(rows), seq![line, empty]);
    let read = env_fold_from(start, written_comments(rows));
    assert(read.comments =~= comment_rows(entry.comment));
    lemma_read_assignment(read, entry);
    let tail = seq![line, empty];
    assert(tail.drop_last() =~= seq![line]);
    assert(tail.drop_last().drop_last() =~= Seq::<Seq<char>>::empty());
    reveal_with_fuel(env_fold_from, 3);
    assert(env_fold_from(read, seq![line]) == env_step(read, line));
    lemma_trim_empty(empty);
    reveal_strlit("#");
    assert(!starts_with(trim(empty), "#"@));
    let done = env_step(read, line);
    assert(done.comments.len() == 0);
    assert(env_step(done, empty) == done);
    assert(done.entries =~= start.entries.push(read_back(entry)));
}

/// What is written to an environment file is read back: every variable with its name, its value and
/// the lines of its comment, in the same order.
pub proof fn law_written_variables_are_read_back(entries: Seq<EnvVariableView>)
    requires
        forall|i: int| 0 <= i < entries.len() ==> fits_a_line(#[trigger] entries[i]),
    ensures
        env_entries(env_file(entries)) == entries.map_values(|e: EnvVariableView| read_back(e)),
        env_fold(lines(env_file(entries))).comments.len() == 0,
        env_file(entries).len() == 0 || env_file(entries).last() == '\n',
    decreases entries.len(),
{
    if entries.len() == 0 {
        assert(entries.map_values(|e: EnvVariableView| read_back(e)) =~= Seq::<
            EnvVariableView,
        >::empty());
    } else {
        let first = entries.drop_last();
        law_written_variables_are_read_back(first);
        assert(fits_a_line(entries.last())) by {
            assert(fits_a_line(entries[entries.len() - 1]));
        }
        lemma_env_block(entries.last());
        lemma_lines_concat(env_file(first), env_block(entries.last()));
        lemma_fold_concat(lines(env_file(first)), lines(env_block(entries.last())));
        lemma_read_block(env_fold(lines(env_file(first))), entries.last());
        assert(entries.map_values(|e: EnvVariableView| read_back(e)) =~= first.map_values(
            |e: EnvVariableView| read_back(e),
        ).push(read_back(entries.last())));
    }
}

// ---------------------------------------------------------------------------------------------
// What was read can be written and read again
// ---------------------------------------------------------------------------------------------
/// Next to the end of a line stands no white space but the ends of other lines.
spec fn tight_at(s: Seq<char>, i: int) -> bool {
    s[i] == '\n' ==> (i > 0 ==> s[i - 1] == '\n' || !is_space(s[i - 1])) && (i + 1 < s.len() ==> s[i
        + 1] == '\n' || !is_space(s[i + 1]))
}

/// That holds of every place of a text.
spec fn tight(s: Seq<char>) -> bool {
    forall|i: int| 0 <= i < s.len() ==> #[trigger] tight_at(s, i)
}

spec fn tight_row(row: Seq<char>) -> bool {
    one_line(row) && trim(row) == row
}

proof fn lemma_join_is_tight(rows: Seq<Seq<char>>)
    requires
        forall|i: int| 0 <= i < rows.len() ==> tight_row(#[trigger] rows[i]),
    ensures
        tight(join(rows, "\n"@)),
        join(rows, "\n"@).len() > 0 ==> join(rows, "\n"@).last() == '\n' || !is_space(
            join(rows, "\n"@).last(),
        ),
    decreases rows.len(),
{
    reveal_strlit("\n");
    if rows.len() == 0 {
    } else if rows.len() == 1 {
        assert(tight_row(rows[0]));
        lemma_trim_is_trimmed(rows[0]);
    } else {
        let a = join(rows.drop_last(), "\n"@);
        let b = rows.last();
        lemma_join_is_tight(rows.drop_last());
        assert(tight_row(rows[rows.len() - 1]));
        lemma_trim_is_trimmed(b);
        let s = a + "\n"@ + b;
        let n = a.len() as int;
        assert(s[n] == '\n');
        assert forall|i: int| 0 <= i < s.len() implies #[trigger] tight_at(s, i) by {
            if i < n {
                assert(tight_at(a, i));
                assert(s[i] == a[i]);
                if i > 0 {
                    assert(s[i - 1] == a[i - 1]);
                }
                if i + 1 < n {
                    assert(s[i + 1] == a[i + 1]);
                }
            } else if i == n {
                if n > 0 {
                    assert(s[n - 1] == a.last());
                }
                if n + 1 < s.len() {
                    assert(s[n + 1] == b[0]);
                }
            } else {
                assert(s[i] == b[i - n - 1]);
            }
        }
        if b.len() > 0 {
            assert(s.last() == b.last());
        } else {
            assert(s.last() == '\n');
        }
    }
}

proof fn lemma_part_is_tight(s: Seq<char>, a: int, b: int)
    requires
        tight(s),
        0 <= a <= b <= s.len(),
    ensures
        tight(s.subrange(a, b)),
{
    let t = s.subrange(a, b);
    assert forall|i: int| 0 <= i < t.len() implies #[trigger] tight_at(t, i) by {
        assert(tight_at(s, a + i));
        assert(t[i] == s[a + i]);
    }
}

proof fn lemma_join_cons(row: Seq<char>, rows: Seq<Seq<char>>)
    requires
        rows.len() > 0,
    ensures
        join(seq![row] + rows, "\n"@) == row + "\n"@ + join(rows, "\n"@),
    decreases rows.len(),
{
    let all = seq![row] + rows;
    assert(all.drop_last() =~= seq![row] + rows.drop_last());
    assert(all.last() == rows.last());
    if rows.len() == 1 {
        assert(all.drop_last() =~= seq![row]);
        assert(join(all.drop_last(), "\n"@) == row);
    } else {
        lemma_join_cons(row, rows.drop_last());
        assert(join(all, "\n"@) =~= row + "\n"@ + join(rows, "\n"@));
    }
}

/// The lines of a text that is tight and does not end in white space make up the text.
proof fn lemma_tight_lines(s: Seq<char>)
    requires
        tight(s),
        s.len() > 0,
        s[0] == '\n' || !is_space(s[0]),
        !is_space(s.last()),
    ensures
        join(lines(s), "\n"@) == s,
        lines(s).len() > 0,
        lines(s).map_values(|r: Seq<char>| trim(r)) == lines(s),
    decreases s.len(),
{
    reveal_strlit("\n");
    assert(is_space('\n'));
    assert(is_space('\r'));
    lemma_find(s, seq!['\n']);
    match find(s, seq!['\n']) {
        Some(k) => {
            lemma_at_char(s, '\n', k);
            assert forall|j: int| 0 <= j < k implies s[j] != '\n' by {
                lemma_at_char(s, '\n', j);
            }
            let row = s.take(k);
            let rest = s.skip(k + 1);
            assert(tight_at(s, k));
            if k > 0 {
                assert(!is_space(s[k - 1]));
                assert(row.last() == s[k - 1]);
                assert(row[0] == s[0]);
            }
            assert(drop_return(row) == row);
            lemma_trimmed(row);
            assert(rest[0] == s[k + 1]);
            assert(rest.last() == s.last());
            lemma_part_is_tight(s, k + 1, s.len() as int);
            assert(rest =~= s.subrange(k + 1, s.len() as int));
            lemma_tight_lines(rest);
            lemma_join_cons(row, lines(rest));
            assert(lines(s) == seq![row] + lines(rest));
            assert(row + "\n"@ + rest =~= s);
            assert forall|i: int| 0 <= i < lines(s).len() implies trim(#[trigger] lines(s)[i])
                == lines(s)[i] by {
                if i > 0 {
                    assert(lines(s)[i] == lines(rest)[i - 1]);
                    assert(lines(rest).map_values(|r: Seq<char>| trim(r))[i - 1] == trim(
                        lines(rest)[i - 1],
                    ));
                }
            }
            assert(lines(s).map_values(|r: Seq<char>| trim(r)) =~= lines(s));
        },
        None => {
            assert(s[0] != '\n') by {
                lemma_at_char(s, '\n', 0);
                if s[0] == '\n' {
                    assert(at(s, seq!['\n'], 0));
                }
            }
            lemma_trimmed(s);
            assert(lines(s) == seq![s]);
            assert(lines(s).map_values(|r: Seq<char>| trim(r)) =~= lines(s));
        },
    }
}

/// The comment that rows make is read back as it is.
proof fn lemma_comment_is_tidy(rows: Seq<Seq<char>>)
    requires
        forall|i: int| 0 <= i < rows.len() ==> tight_row(#[trigger] rows[i]),
    ensures
        tidy_comment(trim(join(rows, "\n"@))) == trim(join(rows, "\n"@)),
{
    let s = join(rows, "\n"@);
    let c = trim(s);
    lemma_join_is_tight(rows);
    lemma_trim_is_trimmed(s);
    lemma_trim_is_part(s);
    let (a, b) = choose|a: int, b: int|
        0 <= a <= b <= s.len() && trim(s) == #[trigger] s.subrange(a, b);
    lemma_part_is_tight(s, a, b);
    if c.len() > 0 {
        lemma_tight_lines(c);
    } else {
        lemma_trim_empty(c);
        let none = Seq::<Seq<char>>::empty();
        assert(comment_rows(c) =~= none);
        lemma_trim_empty(join(none, "\n"@));
        assert(tidy_comment(c) =~= c);
    }
}

/// Nothing in front of a comment is taken for a comment.
proof fn lemma_no_comment_before(
    raw: Seq<char>,
    i: int,
    quote: Option<char>,
    escaped: bool,
    m: int,
)
    requires
        0 <= i,
        0 <= m <= raw.len(),
        comment_start(raw, i, quote, escaped) matches Some(k) ==> m <= k,
    ensures
        comment_start(raw.take(m), i, quote, escaped) is None,
        comment_start(raw, i, quote, escaped) matches Some(k) ==> i <= k < raw.len(),
    decreases raw.len() - i,
{
    if i < raw.len() {
        let t = raw.take(m);
        if i < m {
            assert(t[i] == raw[i]);
            if i > 0 {
                assert(t[i - 1] == raw[i - 1]);
            }
        }
        if escaped {
            lemma_no_comment_before(raw, i + 1, quote, false, m);
        } else if raw[i] == '\\' && quote == Some('"') {
            lemma_no_comment_before(raw, i + 1, quote, true, m);
        } else if raw[i] == '\'' || raw[i] == '"' {
            if quote == Some(raw[i]) {
                lemma_no_comment_before(raw, i + 1, None, false, m);
            } else if quote is None {
                lemma_no_comment_before(raw, i + 1, Some(raw[i]), false, m);
            } else {
                lemma_no_comment_before(raw, i + 1, quote, false, m);
            }
        } else if raw[i] == '#' && quote is None && i > 0 && is_space(raw[i - 1]) {
        } else {
            lemma_no_comment_before(raw, i + 1, quote, false, m);
        }
    }
}

/// A comment starts behind white space, and so not at the start of a value.
proof fn lemma_comment_start_place(
    raw: Seq<char>,
    i: int,
    quote: Option<char>,
    escaped: bool,
)
    requires
        0 <= i,
    ensures
        comment_start(raw, i, quote, escaped) matches Some(k) ==> 0 < k < raw.len(),
    decreases raw.len() - i,
{
    if i < raw.len() {
        if escaped {
            lemma_comment_start_place(raw, i + 1, quote, false);
        } else if raw[i] == '\\' && quote == Some('"') {
            lemma_comment_start_place(raw, i + 1, quote, true);
        } else if raw[i] == '\'' || raw[i] == '"' {
            if quote == Some(raw[i]) {
                lemma_comment_start_place(raw, i + 1, None, false);
            } else if quote is None {
                lemma_comment_start_place(raw, i + 1, Some(raw[i]), false);
            } else {
                lemma_comment_start_place(raw, i + 1, quote, false);
            }
        } else if raw[i] == '#' && quote is None && i > 0 && is_space(raw[i - 1]) {
        } else {
            lemma_comment_start_place(raw, i + 1, quote, false);
        }
    }
}

/// The value of a line is one line that holds no comment, and so is the comment behind it.
proof fn lemma_value_fits(raw: Seq<char>)
    requires
        one_line(raw),
        trim(raw) == raw,
    ensures
        trim(value_and_comment(raw).0) == value_and_comment(raw).0,
        one_line(value_and_comment(raw).0),
        comment_start(value_and_comment(raw).0, 0, None, false) is None,
        value_and_comment(raw).1 matches Some(c) ==> tight_row(c),
{
    match comment_start(raw, 0, None, false) {
        None => {},
        Some(k) => {
            lemma_comment_start_place(raw, 0, None, false);
            lemma_trim_is_trimmed(raw);
            let front = raw.take(k);
            let value = trim_end(front);
            crate::search::lemma_trim_end_len(front);
            lemma_no_comment_before(raw, 0, None, false, value.len() as int);
            assert(front.take(value.len() as int) =~= raw.take(value.len() as int));
            assert(front[0] == raw[0]);
            assert(trim_start(front) == front);
            assert(trim(front) == value);
            lemma_trim_is_trimmed(front);
            assert(one_line(value));
            let rest = raw.skip(k + 1);
            assert(one_line(rest));
            lemma_trim_keeps_line(rest);
            lemma_trim_is_trimmed(rest);
        },
    }
}

/// What is known of variables that were read and of the comment lines in front of the next one.
spec fn readable(entry: EnvVariableView) -> bool {
    &&& (entry.key[0] != '#' && !starts_with(entry.key, "export "@)) ==> fits_a_line(entry)
    &&& tidy_comment(entry.comment) == entry.comment
    &&& entry.source == "template"@
    &&& !entry.modified
}

spec fn readable_progress(progress: EnvProgress) -> bool {
    &&& forall|i: int| 0 <= i < progress.entries.len() ==> readable(#[trigger] progress.entries[i])
    &&& forall|i: int|
        0 <= i < progress.comments.len() ==> tight_row(#[trigger] progress.comments[i])
}

proof fn lemma_step_is_readable(progress: EnvProgress, row: Seq<char>)
    requires
        readable_progress(progress),
        one_line(row),
    ensures
        readable_progress(env_step(progress, row)),
{
    reveal_strlit("#");
    reveal_strlit("=");
    reveal_strlit("export ");
    let t = trim(row);
    lemma_trim_keeps_line(row);
    if starts_with(t, "#"@) {
        let body = trim_start_of(t, "#"@);
        lemma_trim_start_of_is_part(t, "#"@);
        assert(one_line(body));
        lemma_trim_keeps_line(body);
        lemma_trim_is_trimmed(body);
    } else if t.len() == 0 {
        let empty = Seq::<char>::empty();
        lemma_trim_empty(empty);
        assert(trim(empty) =~= empty);
        assert(tight_row(empty));
    } else {
        let a = assignment(t);
        assert(one_line(a)) by {
            if starts_with(t, "export "@) {
                assert forall|i: int| 0 <= i < a.len() implies a[i] != '\n' by {
                    assert(a[i] == t[i + 7]);
                }
            }
        }
        assert("="@ =~= seq!['=']);
        lemma_find(a, seq!['=']);
        match find(a, seq!['=']) {
            None => {},
            Some(k) => {
                lemma_at_char(a, '=', k);
                let key = a.take(k);
                let raw = a.skip(k + 1);
                if trim(key).len() > 0 {
                    assert forall|j: int| 0 <= j < k implies key[j] != '=' by {
                        lemma_at_char(a, '=', j);
                    }
                    assert(one_line(key));
                    assert(one_line(raw));
                    lemma_trim_keeps_line(key);
                    lemma_trim_is_trimmed(key);
                    lemma_trim_is_part(key);
                    let (x, y) = choose|x: int, y: int|
                        0 <= x <= y <= key.len() && trim(key) == #[trigger] key.subrange(x, y);
                    assert forall|j: int| 0 <= j < trim(key).len() implies trim(key)[j]
                        != '=' by {
                        assert(trim(key)[j] == key[x + j]);
                    }
                    lemma_trim_keeps_line(raw);
                    lemma_trim_is_trimmed(raw);
                    lemma_value_fits(trim(raw));
                    let inline = value_and_comment(trim(raw)).1;
                    lemma_comment_is_tidy(with_inline(progress.comments, inline));
                    let entry = assigned(key, raw, progress.comments);
                    assert(readable(entry));
                }
            },
        }
    }
}

proof fn lemma_trim_start_of_is_part(s: Seq<char>, set: Seq<char>)
    ensures
        trim_start_of(s, set).len() <= s.len(),
        trim_start_of(s, set) == s.skip(s.len() - trim_start_of(s, set).len()),
    decreases s.len(),
{
    if s.len() > 0 && set.contains(s[0]) {
        lemma_trim_start_of_is_part(s.skip(1), set);
        assert(s.skip(1).skip(s.len() - 1 - trim_start_of(s, set).len()) =~= s.skip(
            s.len() - trim_start_of(s, set).len(),
        ));
    } else {
        assert(s.skip(0) =~= s);
    }
}

proof fn lemma_fold_is_readable(rows: Seq<Seq<char>>)
    requires
        forall|i: int| 0 <= i < rows.len() ==> one_line(#[trigger] rows[i]),
    ensures
        readable_progress(env_fold(rows)),
    decreases rows.len(),
{
    if rows.len() > 0 {
        lemma_fold_is_readable(rows.drop_last());
        assert(one_line(rows[rows.len() - 1]));
        lemma_step_is_readable(env_fold(rows.drop_last()), rows.last());
    }
}

/// Writing what was read from an environment file and reading it again changes nothing, but for
/// names that are themselves taken for comments or for the word `export`.
pub proof fn law_read_variables_are_kept(content: Seq<char>)
    requires
        forall|i: int|
            0 <= i < env_entries(content).len() ==> (#[trigger] env_entries(content)[i]).key[0]
                != '#' && !starts_with(env_entries(content)[i].key, "export "@),
    ensures
        env_entries(env_file(env_entries(content))) == env_entries(content),
{
    let entries = env_entries(content);
    lemma_lines_are_lines(content);
    lemma_fold_is_readable(lines(content));
    assert forall|i: int| 0 <= i < entries.len() implies fits_a_line(#[trigger] entries[i])
        && read_back(entries[i]) == entries[i] by {
        assert(readable(entries[i]));
    }
    law_written_variables_are_read_back(entries);
    assert(entries.map_values(|e: EnvVariableView| read_back(e)) =~= entries);
}

} // verus!
