//! Splitting a text into parts, and replacing parts of it.
use vstd::prelude::*;
use vstd::string::*;

use crate::search::{
    find, lemma_find_from, lemma_find_skip, position_from, set_has,
};
use crate::text::{char_is_space, chars_of, is_space, text_of_range, texts};

verus! {

// ---------------------------------------------------------------------------------------------
// Splitting at a pattern
// ---------------------------------------------------------------------------------------------
/// The parts of `s` between the occurrences of `sep`, found from left to right.
pub open spec fn split(s: Seq<char>, sep: Seq<char>) -> Seq<Seq<char>>
    decreases s.len(),
{
    match find(s, sep) {
        Some(i) => if sep.len() == 0 || i < 0 || i + sep.len() > s.len() {
            seq![s]
        } else {
            seq![s.take(i)] + split(s.skip(i + sep.len()), sep)
        },
        None => seq![s],
    }
}

/// What stands before the first `sep`, and what stands behind it.
pub open spec fn split_once(s: Seq<char>, sep: Seq<char>) -> Option<(Seq<char>, Seq<char>)> {
    match find(s, sep) {
        Some(i) => Some((s.take(i), s.skip(i + sep.len()))),
        None => None,
    }
}

/// Splits `text` at every occurrence of `sep`.
pub fn split_texts(text: &str, sep: &str) -> (out: Vec<String>)
    requires
        sep@.len() > 0,
    ensures
        texts(out@) == split(text@, sep@),
{
    let s: Vec<char> = chars_of(text);
    let p: Vec<char> = chars_of(sep);
    let mut out: Vec<String> = Vec::new();
    let mut pos: usize = 0;
    proof {
        assert(s@.skip(0) =~= s@);
        assert(texts(out@) + split(s@, p@) =~= split(s@, p@));
    }
    loop
        invariant
            s@ == text@,
            p@ == sep@,
            p@.len() > 0,
            pos <= s@.len(),
            split(s@, p@) == texts(out@) + split(s@.skip(pos as int), p@),
        decreases s@.len() - pos,
    {
        let ghost done = texts(out@);
        let ghost rest = s@.skip(pos as int);
        proof {
            lemma_find_skip(s@, p@, pos as int, pos as int);
            lemma_find_from(s@, p@, pos as int);
        }
        match position_from(&s, &p, pos) {
            Some(k) => {
                let part: String = text_of_range(&s, pos, k);
                proof {
                    assert(part@ =~= rest.take(k - pos));
                    assert(rest.skip(k - pos + p@.len()) =~= s@.skip(k + p@.len()));
                }
                out.push(part);
                pos = k + p.len();
                proof {
                    assert(texts(out@) =~= done.push(part@));
                    assert(done.push(part@) + split(s@.skip(pos as int), p@) =~= done + (seq![
                        part@,
                    ] + split(s@.skip(pos as int), p@)));
                }
            },
            None => {
                let part: String = text_of_range(&s, pos, s.len());
                out.push(part);
                proof {
                    assert(part@ =~= rest);
                    assert(texts(out@) =~= done + seq![rest]);
                }
                return out;
            },
        }
    }
}

/// Splits `text` at the first occurrence of `sep`.
pub fn split_text_once(text: &str, sep: &str) -> (out: Option<(String, String)>)
    ensures
        match out {
            Some((a, b)) => split_once(text@, sep@) == Some((a@, b@)),
            None => split_once(text@, sep@) is None,
        },
{
    let s: Vec<char> = chars_of(text);
    let p: Vec<char> = chars_of(sep);
    match position_from(&s, &p, 0) {
        Some(k) => {
            let a: String = text_of_range(&s, 0, k);
            let b: String = text_of_range(&s, k + p.len(), s.len());
            proof {
                assert(a@ =~= text@.take(k as int));
                assert(b@ =~= text@.skip(k + p@.len()));
            }
            Some((a, b))
        },
        None => None,
    }
}

// ---------------------------------------------------------------------------------------------
// Lines
// ---------------------------------------------------------------------------------------------
/// A line without a carriage return at its end.
pub open spec fn drop_return(s: Seq<char>) -> Seq<char> {
    if s.len() > 0 && s.last() == '\r' {
        s.drop_last()
    } else {
        s
    }
}

/// The lines of a text. A line ends in a line feed, or in a carriage return and a line feed; the
/// last line may have no ending.
pub open spec fn lines(s: Seq<char>) -> Seq<Seq<char>>
    decreases s.len(),
{
    if s.len() == 0 {
        seq![]
    } else {
        match find(s, seq!['\n']) {
            Some(i) => if i < 0 || i >= s.len() {
                seq![s]
            } else {
                seq![drop_return(s.take(i))] + lines(s.skip(i + 1))
            },
            None => seq![s],
        }
    }
}

/// The lines of a text, each with its line feed.
pub open spec fn full_lines(s: Seq<char>) -> Seq<Seq<char>>
    decreases s.len(),
{
    if s.len() == 0 {
        seq![]
    } else {
        match find(s, seq!['\n']) {
            Some(i) => if i < 0 || i >= s.len() {
                seq![s]
            } else {
                seq![s.take(i + 1)] + full_lines(s.skip(i + 1))
            },
            None => seq![s],
        }
    }
}

/// The lines of `text`.
pub fn text_lines(text: &str) -> (out: Vec<String>)
    ensures
        texts(out@) == lines(text@),
{
    let s: Vec<char> = chars_of(text);
    let mut feed: Vec<char> = Vec::new();
    feed.push('\n');
    let mut out: Vec<String> = Vec::new();
    let mut pos: usize = 0;
    proof {
        assert(feed@ =~= seq!['\n']);
        assert(s@.skip(0) =~= s@);
        assert(texts(out@) + lines(s@) =~= lines(s@));
    }
    while pos < s.len()
        invariant
            s@ == text@,
            feed@ == seq!['\n'],
            pos <= s@.len(),
            lines(s@) == texts(out@) + lines(s@.skip(pos as int)),
        decreases s@.len() - pos,
    {
        let ghost done = texts(out@);
        let ghost rest = s@.skip(pos as int);
        proof {
            lemma_find_skip(s@, feed@, pos as int, pos as int);
            lemma_find_from(s@, feed@, pos as int);
        }
        match position_from(&s, &feed, pos) {
            Some(k) => {
                let mut end: usize = k;
                proof {
                    assert(s@.subrange(pos as int, k as int) =~= rest.take(k - pos));
                }
                if k > pos && s[k - 1] == '\r' {
                    end = k - 1;
                    proof {
                        assert(s@.subrange(pos as int, k - 1) =~= rest.take(k - pos).drop_last());
                    }
                }
                let part: String = text_of_range(&s, pos, end);
                proof {
                    assert(part@ =~= drop_return(rest.take(k - pos)));
                    assert(rest.skip(k - pos + 1) =~= s@.skip(k + 1));
                }
                out.push(part);
                pos = k + 1;
                proof {
                    assert(texts(out@) =~= done.push(part@));
                    assert(done.push(part@) + lines(s@.skip(pos as int)) =~= done + (seq![part@]
                        + lines(s@.skip(pos as int))));
                }
            },
            None => {
                let part: String = text_of_range(&s, pos, s.len());
                out.push(part);
                proof {
                    assert(part@ =~= rest);
                    assert(texts(out@) =~= done + seq![rest]);
                }
                return out;
            },
        }
    }
    proof {
        assert(s@.skip(pos as int) =~= Seq::<char>::empty());
        assert(texts(out@) + lines(s@.skip(pos as int)) =~= texts(out@));
    }
    out
}

/// The lines of `text`, each with its line feed.
pub fn text_full_lines(text: &str) -> (out: Vec<String>)
    ensures
        texts(out@) == full_lines(text@),
{
    let s: Vec<char> = chars_of(text);
    let mut feed: Vec<char> = Vec::new();
    feed.push('\n');
    let mut out: Vec<String> = Vec::new();
    let mut pos: usize = 0;
    proof {
        assert(feed@ =~= seq!['\n']);
        assert(s@.skip(0) =~= s@);
        assert(texts(out@) + full_lines(s@) =~= full_lines(s@));
    }
    while pos < s.len()
        invariant
            s@ == text@,
            feed@ == seq!['\n'],
            pos <= s@.len(),
            full_lines(s@) == texts(out@) + full_lines(s@.skip(pos as int)),
        decreases s@.len() - pos,
    {
        let ghost done = texts(out@);
        let ghost rest = s@.skip(pos as int);
        proof {
            lemma_find_skip(s@, feed@, pos as int, pos as int);
            lemma_find_from(s@, feed@, pos as int);
        }
        match position_from(&s, &feed, pos) {
            Some(k) => {
                let part: String = text_of_range(&s, pos, k + 1);
                proof {
                    assert(part@ =~= rest.take(k - pos + 1));
                    assert(rest.skip(k - pos + 1) =~= s@.skip(k + 1));
                }
                out.push(part);
                pos = k + 1;
                proof {
                    assert(texts(out@) =~= done.push(part@));
                    assert(done.push(part@) + full_lines(s@.skip(pos as int)) =~= done + (seq![
                        part@,
                    ] + full_lines(s@.skip(pos as int))));
                }
            },
            None => {
                let part: String = text_of_range(&s, pos, s.len());
                out.push(part);
                proof {
                    assert(part@ =~= rest);
                    assert(texts(out@) =~= done + seq![rest]);
                }
                return out;
            },
        }
    }
    proof {
        assert(s@.skip(pos as int) =~= Seq::<char>::empty());
        assert(texts(out@) + full_lines(s@.skip(pos as int)) =~= texts(out@));
    }
    out
}

// ---------------------------------------------------------------------------------------------
// Words
// ---------------------------------------------------------------------------------------------
/// The length of the run of characters other than white space at the start of `s`.
pub open spec fn word_len(s: Seq<char>) -> nat
    decreases s.len(),
{
    if s.len() == 0 || is_space(s[0]) {
        0
    } else {
        1 + word_len(s.skip(1))
    }
}

pub proof fn lemma_word_len(s: Seq<char>)
    ensures
        word_len(s) <= s.len(),
        forall|k: int| 0 <= k < word_len(s) ==> !is_space(#[trigger] s[k]),
        word_len(s) < s.len() ==> is_space(s[word_len(s) as int]),
    decreases s.len(),
{
    if s.len() == 0 || is_space(s[0]) {
    } else {
        lemma_word_len(s.skip(1));
        assert forall|k: int| 0 <= k < word_len(s) implies !is_space(#[trigger] s[k]) by {
            if k > 0 {
                assert(s.skip(1)[k - 1] == s[k]);
            }
        }
    }
}

/// The words of a text: its runs of characters other than white space.
pub open spec fn words(s: Seq<char>) -> Seq<Seq<char>>
    decreases s.len(),
    when s.len() >= 0
    via words_decreases
{
    if s.len() == 0 {
        seq![]
    } else if is_space(s[0]) {
        words(s.skip(1))
    } else {
        seq![s.take(word_len(s) as int)] + words(s.skip(word_len(s) as int))
    }
}

#[via_fn]
proof fn words_decreases(s: Seq<char>) {
    lemma_word_len(s);
}

/// The words of `text`.
pub fn text_words(text: &str) -> (out: Vec<String>)
    ensures
        texts(out@) == words(text@),
{
    let s: Vec<char> = chars_of(text);
    let mut out: Vec<String> = Vec::new();
    let mut pos: usize = 0;
    proof {
        assert(s@.skip(0) =~= s@);
        assert(texts(out@) + words(s@) =~= words(s@));
    }
    while pos < s.len()
        invariant
            s@ == text@,
            pos <= s@.len(),
            words(s@) == texts(out@) + words(s@.skip(pos as int)),
        decreases s@.len() - pos,
    {
        let ghost done = texts(out@);
        let ghost rest = s@.skip(pos as int);
        if char_is_space(s[pos]) {
            proof {
                assert(rest.skip(1) =~= s@.skip(pos + 1));
            }
            pos += 1;
        } else {
            let mut end: usize = pos;
            proof {
                assert(rest.skip(0) =~= rest);
            }
            while end < s.len() && !char_is_space(s[end])
                invariant
                    s@ == text@,
                    pos <= end <= s@.len(),
                    rest == s@.skip(pos as int),
                    word_len(rest) == (end - pos) + word_len(rest.skip(end - pos)),
                decreases s@.len() - end,
            {
                proof {
                    assert(rest.skip(end - pos).skip(1) =~= rest.skip(end - pos + 1));
                }
                end += 1;
            }
            proof {
                assert(word_len(rest) == end - pos);
                assert(rest[0] == s@[pos as int]);
                assert(!is_space(rest[0]));
                assert(word_len(rest) > 0);
            }
            let part: String = text_of_range(&s, pos, end);
            proof {
                assert(part@ =~= rest.take(end - pos));
                assert(rest.skip(end - pos) =~= s@.skip(end as int));
            }
            out.push(part);
            pos = end;
            proof {
                assert(texts(out@) =~= done.push(part@));
                assert(done.push(part@) + words(s@.skip(pos as int)) =~= done + (seq![part@]
                    + words(s@.skip(pos as int))));
            }
        }
    }
    proof {
        assert(s@.skip(pos as int) =~= Seq::<char>::empty());
        assert(texts(out@) + words(s@.skip(pos as int)) =~= texts(out@));
    }
    out
}

// ---------------------------------------------------------------------------------------------
// Replacing
// ---------------------------------------------------------------------------------------------
/// `s` with every occurrence of `from`, found from left to right, replaced by `to`.
pub open spec fn replace_all(s: Seq<char>, from: Seq<char>, to: Seq<char>) -> Seq<char>
    decreases s.len(),
{
    match find(s, from) {
        Some(i) => if from.len() == 0 || i < 0 || i + from.len() > s.len() {
            s
        } else {
            s.take(i) + to + replace_all(s.skip(i + from.len()), from, to)
        },
        None => s,
    }
}

/// Replaces every occurrence of `from` in `text` by `to`.
pub fn replaced(text: &str, from: &str, to: &str) -> (out: String)
    requires
        from@.len() > 0,
    ensures
        out@ == replace_all(text@, from@, to@),
{
    let s: Vec<char> = chars_of(text);
    let p: Vec<char> = chars_of(from);
    let mut out: String = String::new();
    let mut pos: usize = 0;
    proof {
        assert(s@.skip(0) =~= s@);
        assert(out@ + replace_all(s@, p@, to@) =~= replace_all(s@, p@, to@));
    }
    loop
        invariant
            s@ == text@,
            p@ == from@,
            p@.len() > 0,
            pos <= s@.len(),
            replace_all(s@, p@, to@) == out@ + replace_all(s@.skip(pos as int), p@, to@),
        decreases s@.len() - pos,
    {
        let ghost done = out@;
        let ghost rest = s@.skip(pos as int);
        proof {
            lemma_find_skip(s@, p@, pos as int, pos as int);
            lemma_find_from(s@, p@, pos as int);
        }
        match position_from(&s, &p, pos) {
            Some(k) => {
                let part: String = text_of_range(&s, pos, k);
                proof {
                    assert(part@ =~= rest.take(k - pos));
                    assert(rest.skip(k - pos + p@.len()) =~= s@.skip(k + p@.len()));
                }
                out.append(part.as_str());
                out.append(to);
                pos = k + p.len();
                proof {
                    assert(done + part@ + to@ + replace_all(s@.skip(pos as int), p@, to@) =~= done
                        + (part@ + to@ + replace_all(s@.skip(pos as int), p@, to@)));
                }
            },
            None => {
                let part: String = text_of_range(&s, pos, s.len());
                proof {
                    assert(part@ =~= rest);
                }
                out.append(part.as_str());
                return out;
            },
        }
    }
}

// ---------------------------------------------------------------------------------------------
// Runs
// ---------------------------------------------------------------------------------------------
/// The length of the run of characters outside `set` at the start of `s`.
pub open spec fn run_len(s: Seq<char>, set: Seq<char>) -> nat
    decreases s.len(),
{
    if s.len() == 0 || set.contains(s[0]) {
        0
    } else {
        1 + run_len(s.skip(1), set)
    }
}

proof fn lemma_run_len(s: Seq<char>, set: Seq<char>)
    ensures
        run_len(s, set) <= s.len(),
    decreases s.len(),
{
    if s.len() == 0 || set.contains(s[0]) {
    } else {
        lemma_run_len(s.skip(1), set);
    }
}

/// The runs of characters outside `set`.
pub open spec fn runs(s: Seq<char>, set: Seq<char>) -> Seq<Seq<char>>
    decreases s.len(),
    when s.len() >= 0
    via runs_decreases
{
    if s.len() == 0 {
        seq![]
    } else if set.contains(s[0]) {
        runs(s.skip(1), set)
    } else {
        seq![s.take(run_len(s, set) as int)] + runs(s.skip(run_len(s, set) as int), set)
    }
}

#[via_fn]
proof fn runs_decreases(s: Seq<char>, set: Seq<char>) {
    lemma_run_len(s, set);
}

/// The runs of characters of `text` outside `set`.
pub fn text_runs(text: &str, set: &str) -> (out: Vec<String>)
    ensures
        texts(out@) == runs(text@, set@),
{
    let s: Vec<char> = chars_of(text);
    let wanted: Vec<char> = chars_of(set);
    let mut out: Vec<String> = Vec::new();
    let mut pos: usize = 0;
    proof {
        assert(s@.skip(0) =~= s@);
        assert(texts(out@) + runs(s@, set@) =~= runs(s@, set@));
    }
    while pos < s.len()
        invariant
            s@ == text@,
            wanted@ == set@,
            pos <= s@.len(),
            runs(s@, set@) == texts(out@) + runs(s@.skip(pos as int), set@),
        decreases s@.len() - pos,
    {
        let ghost done = texts(out@);
        let ghost rest = s@.skip(pos as int);
        if set_has(&wanted, s[pos]) {
            proof {
                assert(rest.skip(1) =~= s@.skip(pos + 1));
            }
            pos += 1;
        } else {
            let mut end: usize = pos;
            proof {
                assert(rest.skip(0) =~= rest);
            }
            while end < s.len() && !set_has(&wanted, s[end])
                invariant
                    s@ == text@,
                    wanted@ == set@,
                    pos <= end <= s@.len(),
                    rest == s@.skip(pos as int),
                    run_len(rest, set@) == (end - pos) + run_len(rest.skip(end - pos), set@),
                decreases s@.len() - end,
            {
                proof {
                    assert(rest.skip(end - pos).skip(1) =~= rest.skip(end - pos + 1));
                }
                end += 1;
            }
            proof {
                assert(run_len(rest, set@) == end - pos);
                assert(rest[0] == s@[pos as int]);
                assert(run_len(rest, set@) > 0);
            }
            let part: String = text_of_range(&s, pos, end);
            proof {
                assert(part@ =~= rest.take(end - pos));
                assert(rest.skip(end - pos) =~= s@.skip(end as int));
            }
            out.push(part);
            pos = end;
            proof {
                assert(texts(out@) =~= done.push(part@));
                assert(done.push(part@) + runs(s@.skip(pos as int), set@) =~= done + (seq![part@]
                    + runs(s@.skip(pos as int), set@)));
            }
        }
    }
    proof {
        assert(s@.skip(pos as int) =~= Seq::<char>::empty());
        assert(texts(out@) + runs(s@.skip(pos as int), set@) =~= texts(out@));
    }
    out
}

} // verus!
