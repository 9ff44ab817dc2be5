//! Searching, trimming, splitting and replacing.
use vstd::prelude::*;
use vstd::string::*;

use crate::text::{char_is_space, chars_of, is_space, text_of_range};

verus! {

// ---------------------------------------------------------------------------------------------
// Occurrences
// ---------------------------------------------------------------------------------------------
/// `pat` stands in `s` at position `i`.
pub open spec fn at(s: Seq<char>, pat: Seq<char>, i: int) -> bool {
    0 <= i && i + pat.len() <= s.len() && s.subrange(i, i + pat.len()) == pat
}

pub open spec fn contains(s: Seq<char>, pat: Seq<char>) -> bool {
    exists|i: int| at(s, pat, i)
}

pub open spec fn starts_with(s: Seq<char>, pat: Seq<char>) -> bool {
    at(s, pat, 0)
}

pub open spec fn ends_with(s: Seq<char>, pat: Seq<char>) -> bool {
    at(s, pat, s.len() - pat.len())
}

/// The first position from `i` on at which `pat` stands.
pub open spec fn find_from(s: Seq<char>, pat: Seq<char>, i: int) -> Option<int>
    decreases s.len() + 1 - i,
{
    if i < 0 || i + pat.len() > s.len() {
        None
    } else if at(s, pat, i) {
        Some(i)
    } else {
        find_from(s, pat, i + 1)
    }
}

/// The first position at which `pat` stands.
pub open spec fn find(s: Seq<char>, pat: Seq<char>) -> Option<int> {
    find_from(s, pat, 0)
}

/// The last position up to `i` at which `pat` stands.
pub open spec fn rfind_to(s: Seq<char>, pat: Seq<char>, i: int) -> Option<int>
    decreases i + 1,
{
    if i < 0 {
        None
    } else if at(s, pat, i) {
        Some(i)
    } else {
        rfind_to(s, pat, i - 1)
    }
}

/// The last position at which `pat` stands.
pub open spec fn rfind(s: Seq<char>, pat: Seq<char>) -> Option<int> {
    rfind_to(s, pat, s.len() - pat.len())
}

/// The first position from `i` on that holds one of the characters of `set`.
pub open spec fn find_any_from(s: Seq<char>, set: Seq<char>, i: int) -> Option<int>
    decreases s.len() - i,
{
    if i < 0 || i >= s.len() {
        None
    } else if set.contains(s[i]) {
        Some(i)
    } else {
        find_any_from(s, set, i + 1)
    }
}

/// The first position that holds one of the characters of `set`.
pub open spec fn find_any(s: Seq<char>, set: Seq<char>) -> Option<int> {
    find_any_from(s, set, 0)
}

/// What `find_from` returns is the least position from `i` on at which `pat` stands.
pub proof fn lemma_find_from(s: Seq<char>, pat: Seq<char>, i: int)
    requires
        0 <= i,
    ensures
        find_from(s, pat, i) matches Some(k) ==> i <= k && at(s, pat, k) && (forall|j: int|
            i <= j < k ==> !#[trigger] at(s, pat, j)),
        find_from(s, pat, i) is None ==> forall|j: int| i <= j ==> !#[trigger] at(s, pat, j),
    decreases s.len() + 1 - i,
{
    if i + pat.len() > s.len() {
    } else if at(s, pat, i) {
    } else {
        lemma_find_from(s, pat, i + 1);
    }
}

/// `find` finds an occurrence exactly where there is one, and none before it.
pub proof fn lemma_find(s: Seq<char>, pat: Seq<char>)
    ensures
        find(s, pat) is Some <==> contains(s, pat),
        find(s, pat) matches Some(k) ==> 0 <= k && at(s, pat, k) && (forall|j: int|
            0 <= j < k ==> !#[trigger] at(s, pat, j)),
{
    lemma_find_from(s, pat, 0);
}

/// A least occurrence from `i` on is what `find_from` returns.
pub proof fn lemma_find_from_is(s: Seq<char>, pat: Seq<char>, i: int, k: int)
    requires
        0 <= i <= k,
        at(s, pat, k),
        forall|j: int| i <= j < k ==> !#[trigger] at(s, pat, j),
    ensures
        find_from(s, pat, i) == Some(k),
    decreases k - i,
{
    if i < k {
        assert(!at(s, pat, i));
        lemma_find_from_is(s, pat, i + 1, k);
    }
}

/// Searching behind the first `p` characters.
pub proof fn lemma_find_skip(s: Seq<char>, pat: Seq<char>, p: int, i: int)
    requires
        0 <= p <= i,
        p <= s.len(),
    ensures
        find_from(s.skip(p), pat, i - p) == (match find_from(s, pat, i) {
            Some(k) => Some(k - p),
            None => None,
        }),
    decreases s.len() + 1 - i,
{
    if i + pat.len() > s.len() {
    } else {
        assert(s.skip(p).subrange(i - p, i - p + pat.len()) =~= s.subrange(i, i + pat.len()));
        if at(s, pat, i) {
        } else {
            lemma_find_skip(s, pat, p, i + 1);
        }
    }
}

pub fn occurs_at(s: &Vec<char>, pat: &Vec<char>, i: usize) -> (r: bool)
    ensures
        r == at(s@, pat@, i as int),
{
    if pat.len() > s.len() || i > s.len() - pat.len() {
        return false;
    }
    let mut k: usize = 0;
    while k < pat.len()
        invariant
            k <= pat@.len(),
            i + pat@.len() <= s.len(),
            forall|j: int| 0 <= j < k ==> s@[i + j] == pat@[j],
        decreases pat@.len() - k,
    {
        if s[i + k] != pat[k] {
            proof {
                assert(s@.subrange(i as int, i + pat@.len())[k as int] != pat@[k as int]);
            }
            return false;
        }
        k += 1;
    }
    proof {
        assert(s@.subrange(i as int, i + pat@.len()) =~= pat@);
    }
    true
}

/// The first position from `start` on at which `pat` stands in `s`.
pub fn position_from(s: &Vec<char>, pat: &Vec<char>, start: usize) -> (r: Option<usize>)
    requires
        start <= s@.len(),
    ensures
        match r {
            Some(k) => find_from(s@, pat@, start as int) == Some(k as int) && k + pat.len()
                <= s.len(),
            None => find_from(s@, pat@, start as int) is None,
        },
{
    let mut i: usize = start;
    while pat.len() <= s.len() && i <= s.len() - pat.len()
        invariant
            start <= i <= s@.len() + 1,
            s@.len() == s.len(),
            pat@.len() == pat.len(),
            find_from(s@, pat@, start as int) == find_from(s@, pat@, i as int),
        decreases s@.len() + 1 - i,
    {
        if occurs_at(s, pat, i) {
            return Some(i);
        }
        if i == s.len() {
            proof {
                assert(find_from(s@, pat@, i + 1) is None);
            }
            return None;
        }
        i += 1;
    }
    None
}

/// The first position at which `pat` stands in `text`, counted in characters.
pub fn position(text: &str, pat: &str) -> (r: Option<usize>)
    ensures
        match r {
            Some(k) => find(text@, pat@) == Some(k as int) && k + pat@.len() <= text@.len()
                && text@.len() <= usize::MAX,
            None => find(text@, pat@) is None,
        },
{
    let s: Vec<char> = chars_of(text);
    let p: Vec<char> = chars_of(pat);
    position_from(&s, &p, 0)
}

/// Whether `pat` stands somewhere in `text`.
pub fn text_has(text: &str, pat: &str) -> (r: bool)
    ensures
        r == contains(text@, pat@),
{
    proof {
        lemma_find(text@, pat@);
    }
    match position(text, pat) {
        Some(_) => true,
        None => false,
    }
}

pub fn has_prefix(text: &str, pat: &str) -> (r: bool)
    ensures
        r == starts_with(text@, pat@),
{
    let s: Vec<char> = chars_of(text);
    let p: Vec<char> = chars_of(pat);
    occurs_at(&s, &p, 0)
}

pub fn has_suffix(text: &str, pat: &str) -> (r: bool)
    ensures
        r == ends_with(text@, pat@),
{
    let s: Vec<char> = chars_of(text);
    let p: Vec<char> = chars_of(pat);
    if p.len() > s.len() {
        return false;
    }
    occurs_at(&s, &p, s.len() - p.len())
}

/// The last position at which `pat` stands in `text`, counted in characters.
pub fn last_position(text: &str, pat: &str) -> (r: Option<usize>)
    ensures
        match r {
            Some(k) => rfind(text@, pat@) == Some(k as int) && k + pat@.len() <= text@.len()
                && text@.len() <= usize::MAX,
            None => rfind(text@, pat@) is None,
        },
{
    let s: Vec<char> = chars_of(text);
    let p: Vec<char> = chars_of(pat);
    if p.len() > s.len() {
        return None;
    }
    let mut i: usize = s.len() - p.len();
    while i > 0
        invariant
            s@ == text@,
            p@ == pat@,
            i + p@.len() <= s.len(),
            rfind(s@, p@) == rfind_to(s@, p@, i as int),
        decreases i,
    {
        if occurs_at(&s, &p, i) {
            return Some(i);
        }
        i -= 1;
    }
    if occurs_at(&s, &p, 0) {
        return Some(0);
    }
    proof {
        assert(rfind_to(s@, p@, -1) is None);
    }
    None
}

/// Whether `c` is one of the characters of `set`.
pub fn set_has(set: &Vec<char>, c: char) -> (r: bool)
    ensures
        r == set@.contains(c),
{
    let mut i: usize = 0;
    while i < set.len()
        invariant
            i <= set@.len(),
            forall|k: int| 0 <= k < i ==> set@[k] != c,
        decreases set@.len() - i,
    {
        if set[i] == c {
            return true;
        }
        i += 1;
    }
    false
}

/// The first position of `text` that holds one of the characters of `set`.
pub fn position_any(text: &str, set: &str) -> (r: Option<usize>)
    ensures
        match r {
            Some(k) => find_any(text@, set@) == Some(k as int) && k < text@.len(),
            None => find_any(text@, set@) is None,
        },
{
    let s: Vec<char> = chars_of(text);
    let wanted: Vec<char> = chars_of(set);
    let mut i: usize = 0;
    while i < s.len()
        invariant
            i <= s@.len(),
            s@ == text@,
            wanted@ == set@,
            find_any(s@, wanted@) == find_any_from(s@, wanted@, i as int),
        decreases s@.len() - i,
    {
        if set_has(&wanted, s[i]) {
            return Some(i);
        }
        i += 1;
    }
    None
}

// ---------------------------------------------------------------------------------------------
// Parts of a text
// ---------------------------------------------------------------------------------------------
/// The first `n` characters.
pub fn head(text: &str, n: usize) -> (out: String)
    requires
        n <= text@.len(),
    ensures
        out@ == text@.take(n as int),
{
    let s: Vec<char> = chars_of(text);
    proof {
        assert(s@.subrange(0, n as int) =~= text@.take(n as int));
    }
    text_of_range(&s, 0, n)
}

/// What follows the first `n` characters.
pub fn tail(text: &str, n: usize) -> (out: String)
    requires
        n <= text@.len(),
    ensures
        out@ == text@.skip(n as int),
{
    let s: Vec<char> = chars_of(text);
    proof {
        assert(s@.subrange(n as int, s@.len() as int) =~= text@.skip(n as int));
    }
    text_of_range(&s, n, s.len())
}

/// `text` without the prefix `pat`, where it has that prefix.
pub fn without_prefix(text: &str, pat: &str) -> (r: Option<String>)
    ensures
        match r {
            Some(rest) => starts_with(text@, pat@) && rest@ == text@.skip(pat@.len() as int),
            None => !starts_with(text@, pat@),
        },
{
    if has_prefix(text, pat) {
        let p: Vec<char> = chars_of(pat);
        Some(tail(text, p.len()))
    } else {
        None
    }
}

/// `text` without the suffix `pat`, where it has that suffix.
pub fn without_suffix(text: &str, pat: &str) -> (r: Option<String>)
    ensures
        match r {
            Some(rest) => ends_with(text@, pat@) && rest@ == text@.take(text@.len() - pat@.len()),
            None => !ends_with(text@, pat@),
        },
{
    if has_suffix(text, pat) {
        let s: Vec<char> = chars_of(text);
        let p: Vec<char> = chars_of(pat);
        Some(head(text, s.len() - p.len()))
    } else {
        None
    }
}

// ---------------------------------------------------------------------------------------------
// Trimming
// ---------------------------------------------------------------------------------------------
/// `s` without the white space at its start.
pub open spec fn trim_start(s: Seq<char>) -> Seq<char>
    decreases s.len(),
{
    if s.len() > 0 && is_space(s[0]) {
        trim_start(s.skip(1))
    } else {
        s
    }
}

/// `s` without the white space at its end.
pub open spec fn trim_end(s: Seq<char>) -> Seq<char>
    decreases s.len(),
{
    if s.len() > 0 && is_space(s.last()) {
        trim_end(s.drop_last())
    } else {
        s
    }
}

/// `s` without the white space at both ends.
pub open spec fn trim(s: Seq<char>) -> Seq<char> {
    trim_end(trim_start(s))
}

/// `s` without the characters of `set` at its start.
pub open spec fn trim_start_of(s: Seq<char>, set: Seq<char>) -> Seq<char>
    decreases s.len(),
{
    if s.len() > 0 && set.contains(s[0]) {
        trim_start_of(s.skip(1), set)
    } else {
        s
    }
}

/// `s` without the characters of `set` at its end.
pub open spec fn trim_end_of(s: Seq<char>, set: Seq<char>) -> Seq<char>
    decreases s.len(),
{
    if s.len() > 0 && set.contains(s.last()) {
        trim_end_of(s.drop_last(), set)
    } else {
        s
    }
}

/// `s` without the characters of `set` at both ends.
pub open spec fn trim_of(s: Seq<char>, set: Seq<char>) -> Seq<char> {
    trim_end_of(trim_start_of(s, set), set)
}

/// `text` without the white space at its start.
pub fn trimmed_start(text: &str) -> (out: String)
    ensures
        out@ == trim_start(text@),
{
    let s: Vec<char> = chars_of(text);
    let mut i: usize = 0;
    proof {
        assert(s@.skip(0) =~= s@);
    }
    while i < s.len() && char_is_space(s[i])
        invariant
            i <= s@.len(),
            trim_start(s@) == trim_start(s@.skip(i as int)),
        decreases s@.len() - i,
    {
        proof {
            assert(s@.skip(i as int).skip(1) =~= s@.skip(i + 1));
        }
        i += 1;
    }
    proof {
        assert(s@.subrange(i as int, s@.len() as int) =~= s@.skip(i as int));
    }
    text_of_range(&s, i, s.len())
}

/// `text` without the white space at its end.
pub fn trimmed_end(text: &str) -> (out: String)
    ensures
        out@ == trim_end(text@),
{
    let s: Vec<char> = chars_of(text);
    let mut n: usize = s.len();
    proof {
        assert(s@.take(s@.len() as int) =~= s@);
    }
    while n > 0 && char_is_space(s[n - 1])
        invariant
            n <= s@.len(),
            trim_end(s@) == trim_end(s@.take(n as int)),
        decreases n,
    {
        proof {
            assert(s@.take(n as int).drop_last() =~= s@.take(n - 1));
        }
        n -= 1;
    }
    proof {
        assert(s@.subrange(0, n as int) =~= s@.take(n as int));
    }
    text_of_range(&s, 0, n)
}

/// `text` without the white space at both ends.
pub fn trimmed(text: &str) -> (out: String)
    ensures
        out@ == trim(text@),
{
    let start: String = trimmed_start(text);
    trimmed_end(start.as_str())
}

/// `text` without the characters of `set` at its start.
pub fn trimmed_start_of(text: &str, set: &str) -> (out: String)
    ensures
        out@ == trim_start_of(text@, set@),
{
    let s: Vec<char> = chars_of(text);
    let wanted: Vec<char> = chars_of(set);
    let mut i: usize = 0;
    proof {
        assert(s@.skip(0) =~= s@);
    }
    while i < s.len() && set_has(&wanted, s[i])
        invariant
            i <= s@.len(),
            wanted@ == set@,
            trim_start_of(s@, set@) == trim_start_of(s@.skip(i as int), set@),
        decreases s@.len() - i,
    {
        proof {
            assert(s@.skip(i as int).skip(1) =~= s@.skip(i + 1));
        }
        i += 1;
    }
    proof {
        assert(s@.subrange(i as int, s@.len() as int) =~= s@.skip(i as int));
    }
    text_of_range(&s, i, s.len())
}

/// `text` without the characters of `set` at its end.
pub fn trimmed_end_of(text: &str, set: &str) -> (out: String)
    ensures
        out@ == trim_end_of(text@, set@),
{
    let s: Vec<char> = chars_of(text);
    let wanted: Vec<char> = chars_of(set);
    let mut n: usize = s.len();
    proof {
        assert(s@.take(s@.len() as int) =~= s@);
    }
    while n > 0 && set_has(&wanted, s[n - 1])
        invariant
            n <= s@.len(),
            wanted@ == set@,
            trim_end_of(s@, set@) == trim_end_of(s@.take(n as int), set@),
        decreases n,
    {
        proof {
            assert(s@.take(n as int).drop_last() =~= s@.take(n - 1));
        }
        n -= 1;
    }
    proof {
        assert(s@.subrange(0, n as int) =~= s@.take(n as int));
    }
    text_of_range(&s, 0, n)
}

/// `text` without the characters of `set` at both ends.
pub fn trimmed_of(text: &str, set: &str) -> (out: String)
    ensures
        out@ == trim_of(text@, set@),
{
    let start: String = trimmed_start_of(text, set);
    trimmed_end_of(start.as_str(), set)
}

/// `s` without the suffix `pat`, taken off as often as it stands there.
pub open spec fn trim_end_all(s: Seq<char>, pat: Seq<char>) -> Seq<char>
    decreases s.len(),
{
    if pat.len() > 0 && ends_with(s, pat) {
        trim_end_all(s.take(s.len() - pat.len()), pat)
    } else {
        s
    }
}

/// `text` without the suffix `pat`, taken off as often as it stands there.
pub fn trimmed_end_all(text: &str, pat: &str) -> (out: String)
    ensures
        out@ == trim_end_all(text@, pat@),
    decreases text@.len(),
{
    if pat.is_empty() {
        return crate::text::owned(text);
    }
    match without_suffix(text, pat) {
        Some(rest) => trimmed_end_all(rest.as_str(), pat),
        None => crate::text::owned(text),
    }
}

/// What stands in `s` before the first `pat`; all of `s` where there is none.
pub open spec fn before_first(s: Seq<char>, pat: Seq<char>) -> Seq<char> {
    match find(s, pat) {
        Some(i) => s.take(i),
        None => s,
    }
}

/// What stands in `s` behind the last `pat`; all of `s` where there is none.
pub open spec fn behind_last(s: Seq<char>, pat: Seq<char>) -> Seq<char> {
    match rfind(s, pat) {
        Some(i) => s.skip(i + pat.len()),
        None => s,
    }
}

pub fn text_before_first(text: &str, pat: &str) -> (out: String)
    ensures
        out@ == before_first(text@, pat@),
{
    match position(text, pat) {
        Some(k) => head(text, k),
        None => crate::text::owned(text),
    }
}

pub fn text_behind_last(text: &str, pat: &str) -> (out: String)
    ensures
        out@ == behind_last(text@, pat@),
{
    match last_position(text, pat) {
        Some(k) => {
            let p: Vec<char> = chars_of(pat);
            tail(text, k + p.len())
        },
        None => crate::text::owned(text),
    }
}

/// `s` without the prefix `pat`, taken off as often as it stands there.
pub open spec fn trim_start_all(s: Seq<char>, pat: Seq<char>) -> Seq<char>
    decreases s.len(),
{
    if pat.len() > 0 && starts_with(s, pat) {
        trim_start_all(s.skip(pat.len() as int), pat)
    } else {
        s
    }
}

/// `text` without the prefix `pat`, taken off as often as it stands there.
pub fn trimmed_start_all(text: &str, pat: &str) -> (out: String)
    ensures
        out@ == trim_start_all(text@, pat@),
    decreases text@.len(),
{
    if pat.is_empty() {
        return crate::text::owned(text);
    }
    match without_prefix(text, pat) {
        Some(rest) => trimmed_start_all(rest.as_str(), pat),
        None => crate::text::owned(text),
    }
}

/// White space trimmed from nothing leaves nothing.
pub proof fn lemma_trim_empty(s: Seq<char>)
    ensures
        s.len() == 0 ==> trim(s).len() == 0,
        trim(s).len() <= s.len(),
{
    lemma_trim_start_len(s);
    lemma_trim_end_len(trim_start(s));
}

pub proof fn lemma_trim_start_len(s: Seq<char>)
    ensures
        trim_start(s).len() <= s.len(),
        trim_start(s) == s.skip(s.len() - trim_start(s).len()),
    decreases s.len(),
{
    if s.len() > 0 && is_space(s[0]) {
        lemma_trim_start_len(s.skip(1));
        assert(s.skip(1).skip(s.len() - 1 - trim_start(s).len()) =~= s.skip(
            s.len() - trim_start(s).len(),
        ));
    } else {
        assert(s.skip(0) =~= s);
    }
}

pub proof fn lemma_trim_end_len(s: Seq<char>)
    ensures
        trim_end(s).len() <= s.len(),
        trim_end(s) == s.take(trim_end(s).len() as int),
    decreases s.len(),
{
    if s.len() > 0 && is_space(s.last()) {
        lemma_trim_end_len(s.drop_last());
        assert(s.drop_last().take(trim_end(s).len() as int) =~= s.take(trim_end(s).len() as int));
    } else {
        assert(s.take(s.len() as int) =~= s);
    }
}

/// A trimmed text has no white space at its ends, so trimming it again changes nothing.
pub proof fn lemma_trim_is_trimmed(s: Seq<char>)
    ensures
        trim(trim(s)) == trim(s),
        trim(s).len() > 0 ==> !is_space(trim(s)[0]) && !is_space(trim(s).last()),
{
    let a = trim_start(s);
    let t = trim_end(a);
    lemma_trim_start_stops(s);
    lemma_trim_end_stops(a);
    lemma_trim_end_len(a);
    if t.len() > 0 {
        assert(t[0] == a[0]);
    }
    assert(trim_start(t) == t);
    assert(trim_end(t) == t);
}

/// Behind the white space at the start of a text stands another character.
pub proof fn lemma_trim_start_stops(s: Seq<char>)
    ensures
        trim_start(s).len() > 0 ==> !is_space(trim_start(s)[0]),
    decreases s.len(),
{
    if s.len() > 0 && is_space(s[0]) {
        lemma_trim_start_stops(s.skip(1));
    }
}

/// Before the white space at the end of a text stands another character.
pub proof fn lemma_trim_end_stops(s: Seq<char>)
    ensures
        trim_end(s).len() > 0 ==> !is_space(trim_end(s).last()),
    decreases s.len(),
{
    if s.len() > 0 && is_space(s.last()) {
        lemma_trim_end_stops(s.drop_last());
    }
}

/// What is trimmed from the start of a text is white space.
pub proof fn lemma_trim_start_spaces(s: Seq<char>)
    ensures
        ({
            let n = s.len() - trim_start(s).len();
            0 <= n <= s.len() && trim_start(s) == s.skip(n) && forall|k: int|
                0 <= k < n ==> is_space(#[trigger] s[k])
        }),
    decreases s.len(),
{
    lemma_trim_start_len(s);
    if s.len() > 0 && is_space(s[0]) {
        lemma_trim_start_spaces(s.skip(1));
        let n = s.len() - trim_start(s).len();
        assert forall|k: int| 0 <= k < n implies is_space(#[trigger] s[k]) by {
            if k > 0 {
                assert(s.skip(1)[k - 1] == s[k]);
            }
        }
    }
}

/// What is trimmed from the end of a text is white space.
pub proof fn lemma_trim_end_spaces(s: Seq<char>)
    ensures
        ({
            let m = trim_end(s).len() as int;
            m <= s.len() && trim_end(s) == s.take(m) && forall|k: int|
                m <= k < s.len() ==> is_space(#[trigger] s[k])
        }),
    decreases s.len(),
{
    lemma_trim_end_len(s);
    if s.len() > 0 && is_space(s.last()) {
        lemma_trim_end_spaces(s.drop_last());
        let m = trim_end(s).len() as int;
        assert forall|k: int| m <= k < s.len() implies is_space(#[trigger] s[k]) by {
            if k < s.len() - 1 {
                assert(s.drop_last()[k] == s[k]);
            }
        }
    }
}

/// What is trimmed from the start of a text is in the set.
pub proof fn lemma_trim_start_of_set(s: Seq<char>, set: Seq<char>)
    ensures
        ({
            let n = s.len() - trim_start_of(s, set).len();
            0 <= n <= s.len() && trim_start_of(s, set) == s.skip(n) && forall|k: int|
                0 <= k < n ==> set.contains(#[trigger] s[k])
        }),
    decreases s.len(),
{
    if s.len() > 0 && set.contains(s[0]) {
        lemma_trim_start_of_set(s.skip(1), set);
        let n = s.len() - trim_start_of(s, set).len();
        assert(s.skip(1).skip(n - 1) =~= s.skip(n));
        assert forall|k: int| 0 <= k < n implies set.contains(#[trigger] s[k]) by {
            if k > 0 {
                assert(s.skip(1)[k - 1] == s[k]);
            }
        }
    } else {
        assert(s.skip(0) =~= s);
    }
}

/// What is trimmed from the end of a text is in the set.
pub proof fn lemma_trim_end_of_set(s: Seq<char>, set: Seq<char>)
    ensures
        ({
            let m = trim_end_of(s, set).len() as int;
            m <= s.len() && trim_end_of(s, set) == s.take(m) && forall|k: int|
                m <= k < s.len() ==> set.contains(#[trigger] s[k])
        }),
    decreases s.len(),
{
    if s.len() > 0 && set.contains(s.last()) {
        lemma_trim_end_of_set(s.drop_last(), set);
        let m = trim_end_of(s, set).len() as int;
        assert(s.drop_last().take(m) =~= s.take(m));
        assert forall|k: int| m <= k < s.len() implies set.contains(#[trigger] s[k]) by {
            if k < s.len() - 1 {
                assert(s.drop_last()[k] == s[k]);
            }
        }
    } else {
        assert(s.take(s.len() as int) =~= s);
    }
}

/// One character stands in a text where it is.
pub proof fn lemma_at_char(s: Seq<char>, c: char, i: int)
    ensures
        at(s, seq![c], i) == (0 <= i < s.len() && s[i] == c),
{
    if 0 <= i < s.len() {
        assert(s.subrange(i, i + 1) =~= seq![s[i]]);
        assert(seq![s[i]][0] == s[i]);
        assert(seq![c][0] == c);
    }
}

/// The first place of a character is where it first stands.
pub proof fn lemma_first_char(s: Seq<char>, c: char, k: int)
    requires
        0 <= k < s.len(),
        s[k] == c,
        forall|j: int| 0 <= j < k ==> s[j] != c,
    ensures
        find(s, seq![c]) == Some(k),
{
    lemma_at_char(s, c, k);
    assert forall|j: int| 0 <= j < k implies !#[trigger] at(s, seq![c], j) by {
        lemma_at_char(s, c, j);
    }
    lemma_find_from_is(s, seq![c], 0, k);
}

/// A character that does not stand in a text is not found.
pub proof fn lemma_no_char(s: Seq<char>, c: char)
    requires
        forall|j: int| 0 <= j < s.len() ==> s[j] != c,
    ensures
        find(s, seq![c]) is None,
{
    lemma_find(s, seq![c]);
    if find(s, seq![c]) is Some {
        lemma_at_char(s, c, find(s, seq![c])->0);
    }
}

/// The last place of a character is where it last stands.
pub proof fn lemma_last_char(s: Seq<char>, c: char, k: int)
    requires
        0 <= k < s.len(),
        s[k] == c,
        forall|j: int| k < j < s.len() ==> s[j] != c,
    ensures
        rfind(s, seq![c]) == Some(k),
{
    lemma_last_char_to(s, c, k, s.len() - 1);
}

proof fn lemma_last_char_to(s: Seq<char>, c: char, k: int, i: int)
    requires
        0 <= k <= i < s.len(),
        s[k] == c,
        forall|j: int| k < j <= i ==> s[j] != c,
    ensures
        rfind_to(s, seq![c], i) == Some(k),
    decreases i - k,
{
    lemma_at_char(s, c, i);
    if k < i {
        lemma_last_char_to(s, c, k, i - 1);
    }
}

/// The last place of a text in another is one at which it stands.
pub proof fn lemma_rfind_to(s: Seq<char>, pat: Seq<char>, i: int)
    ensures
        rfind_to(s, pat, i) matches Some(k) ==> 0 <= k <= i && at(s, pat, k) && (forall|j: int|
            k < j <= i ==> !#[trigger] at(s, pat, j)),
        rfind_to(s, pat, i) is None ==> forall|j: int| 0 <= j <= i ==> !#[trigger] at(s, pat, j),
    decreases i + 1,
{
    if i >= 0 && !at(s, pat, i) {
        lemma_rfind_to(s, pat, i - 1);
    }
}

/// The first place of one of several characters is where one of them first stands.
pub proof fn lemma_find_any_from(s: Seq<char>, set: Seq<char>, i: int)
    requires
        0 <= i,
    ensures
        find_any_from(s, set, i) matches Some(k) ==> i <= k < s.len() && set.contains(s[k])
            && forall|j: int| i <= j < k ==> !set.contains(#[trigger] s[j]),
        find_any_from(s, set, i) is None ==> forall|j: int|
            i <= j < s.len() ==> !set.contains(#[trigger] s[j]),
    decreases s.len() - i,
{
    if i < s.len() && !set.contains(s[i]) {
        lemma_find_any_from(s, set, i + 1);
    }
}

/// A first place of one of several characters is the one that is found.
pub proof fn lemma_find_any_from_is(s: Seq<char>, set: Seq<char>, i: int, k: int)
    requires
        0 <= i <= k < s.len(),
        set.contains(s[k]),
        forall|j: int| i <= j < k ==> !set.contains(#[trigger] s[j]),
    ensures
        find_any_from(s, set, i) == Some(k),
    decreases k - i,
{
    if i < k {
        lemma_find_any_from_is(s, set, i + 1, k);
    }
}

} // verus!
