//! What replacing a text does to the parts of another.
use vstd::prelude::*;

use crate::search::{at, contains, find, lemma_find, lemma_find_from_is};
use crate::split::replace_all;

verus! {

/// A text that is not there is not replaced.
pub proof fn lemma_absent_is_not_replaced(s: Seq<char>, from: Seq<char>, to: Seq<char>)
    requires
        !contains(s, from),
    ensures
        replace_all(s, from, to) == s,
{
    lemma_find(s, from);
}

/// A text that is there brings its replacement in.
pub proof fn lemma_replacement_is_there(s: Seq<char>, from: Seq<char>, to: Seq<char>)
    requires
        contains(s, from),
        from.len() > 0,
    ensures
        contains(replace_all(s, from, to), to),
{
    lemma_find(s, from);
    let i = find(s, from)->0;
    let out = replace_all(s, from, to);
    assert(out == s.take(i) + to + replace_all(s.skip(i + from.len()), from, to));
    assert(out.subrange(i, i + to.len()) =~= to);
    assert(at(out, to, i));
}

/// Where a text stands beside a character that it does not hold: on one side of it or on the other.
proof fn lemma_place_beside(a: Seq<char>, c: char, b: Seq<char>, pat: Seq<char>, j: int)
    requires
        !pat.contains(c),
        pat.len() > 0,
    ensures
        at(a + seq![c] + b, pat, j) <==> at(a, pat, j) || at(b, pat, j - a.len() - 1),
{
    let s = a + seq![c] + b;
    let n = a.len() as int;
    if at(s, pat, j) {
        let found = s.subrange(j, j + pat.len());
        assert(found == pat);
        if j + pat.len() <= n {
            assert(a.subrange(j, j + pat.len()) =~= pat);
        } else if j > n {
            assert(b.subrange(j - n - 1, j - n - 1 + pat.len()) =~= pat);
        } else {
            assert(found[n - j] == s[n]);
            assert(pat[n - j] == c);
        }
    }
    if at(a, pat, j) {
        assert(s.subrange(j, j + pat.len()) =~= a.subrange(j, j + pat.len()));
    }
    if at(b, pat, j - n - 1) {
        assert(s.subrange(j, j + pat.len()) =~= b.subrange(j - n - 1, j - n - 1 + pat.len()));
    }
}

/// Replacing a text goes on both sides of a character that the text does not hold by itself.
pub proof fn lemma_replaced_on_both_sides(
    a: Seq<char>,
    c: char,
    b: Seq<char>,
    from: Seq<char>,
    to: Seq<char>,
)
    requires
        !from.contains(c),
        from.len() > 0,
    ensures
        replace_all(a + seq![c] + b, from, to) == replace_all(a, from, to) + seq![c] + replace_all(
            b,
            from,
            to,
        ),
        contains(a + seq![c] + b, from) <==> contains(a, from) || contains(b, from),
    decreases a.len(),
{
    let s = a + seq![c] + b;
    let n = a.len() as int;
    assert forall|j: int| #[trigger] at(s, from, j) <==> at(a, from, j) || at(b, from, j - n - 1) by {
        lemma_place_beside(a, c, b, from, j);
    }
    assert(contains(s, from) <==> contains(a, from) || contains(b, from)) by {
        if contains(a, from) {
            let j = choose|j: int| at(a, from, j);
            assert(at(s, from, j));
        }
        if contains(b, from) {
            let j = choose|j: int| at(b, from, j);
            assert(at(s, from, j + n + 1));
        }
        if contains(s, from) {
            let j = choose|j: int| at(s, from, j);
            assert(at(a, from, j) || at(b, from, j - n - 1));
        }
    }
    lemma_find(a, from);
    lemma_find(b, from);
    lemma_find(s, from);
    match find(a, from) {
        Some(i) => {
            assert(at(s, from, i));
            assert forall|j: int| 0 <= j < i implies !#[trigger] at(s, from, j) by {
                assert(!at(a, from, j));
            }
            lemma_find_from_is(s, from, 0, i);
            let rest = a.skip(i + from.len());
            lemma_replaced_on_both_sides(rest, c, b, from, to);
            assert(s.skip(i + from.len()) =~= rest + seq![c] + b);
            assert(s.take(i) =~= a.take(i));
            assert(a.take(i) + to + (replace_all(rest, from, to) + seq![c] + replace_all(
                b,
                from,
                to,
            )) =~= (a.take(i) + to + replace_all(rest, from, to)) + seq![c] + replace_all(
                b,
                from,
                to,
            ));
        },
        None => {
            match find(b, from) {
                Some(i) => {
                    let k = i + n + 1;
                    assert(at(s, from, k));
                    assert forall|j: int| 0 <= j < k implies !#[trigger] at(s, from, j) by {
                        assert(!at(a, from, j));
                        if j > n {
                            assert(!at(b, from, j - n - 1));
                        }
                    }
                    lemma_find_from_is(s, from, 0, k);
                    assert(s.skip(k + from.len()) =~= b.skip(i + from.len()));
                    assert(s.take(k) =~= a + seq![c] + b.take(i));
                    let last = replace_all(b.skip(i + from.len()), from, to);
                    assert((a + seq![c] + b.take(i)) + to + last =~= a + seq![c] + (b.take(i) + to
                        + last));
                },
                None => {},
            }
        },
    }
}

} // verus!
