//! Sorting.
use vstd::prelude::*;
use vstd::string::*;

use crate::model::{log_views, LogEntry, LogEntryView};
use crate::text::{chars_of, texts};

verus! {

// ---------------------------------------------------------------------------------------------
// Texts
// ---------------------------------------------------------------------------------------------
/// `a` stands before `b` in the order of their characters.
pub open spec fn text_before(a: Seq<char>, b: Seq<char>) -> bool
    decreases a.len(),
{
    if b.len() == 0 {
        false
    } else if a.len() == 0 {
        true
    } else if a[0] != b[0] {
        a[0] < b[0]
    } else {
        text_before(a.skip(1), b.skip(1))
    }
}

/// Whether `a` stands before `b` in the order of their characters.
pub fn is_text_before(a: &str, b: &str) -> (r: bool)
    ensures
        r == text_before(a@, b@),
{
    let left: Vec<char> = chars_of(a);
    let right: Vec<char> = chars_of(b);
    let mut i: usize = 0;
    proof {
        assert(a@.skip(0) =~= a@);
        assert(b@.skip(0) =~= b@);
    }
    while i < left.len() && i < right.len()
        invariant
            left@ == a@,
            right@ == b@,
            i <= left@.len(),
            i <= right@.len(),
            text_before(a@, b@) == text_before(a@.skip(i as int), b@.skip(i as int)),
        decreases left@.len() - i,
    {
        if left[i] != right[i] {
            return left[i] < right[i];
        }
        proof {
            assert(a@.skip(i as int).skip(1) =~= a@.skip(i + 1));
            assert(b@.skip(i as int).skip(1) =~= b@.skip(i + 1));
        }
        i += 1;
    }
    i < right.len()
}

/// The order of texts is strict and total, and passes on.
pub proof fn lemma_text_order(a: Seq<char>, b: Seq<char>, c: Seq<char>)
    ensures
        !text_before(a, a),
        text_before(a, b) ==> !text_before(b, a),
        a == b || text_before(a, b) || text_before(b, a),
        text_before(a, b) && text_before(b, c) ==> text_before(a, c),
    decreases a.len() + b.len() + c.len(),
{
    if a.len() > 0 {
        lemma_text_order(a.skip(1), seq![], seq![]);
        if b.len() > 0 {
            if c.len() > 0 {
                lemma_text_order(a.skip(1), b.skip(1), c.skip(1));
            } else {
                lemma_text_order(a.skip(1), b.skip(1), c);
            }
            if a[0] == b[0] && a.skip(1) == b.skip(1) {
                assert forall|k: int| 0 <= k < a.len() implies a[k] == b[k] by {
                    if k > 0 {
                        assert(a.skip(1)[k - 1] == b.skip(1)[k - 1]);
                    }
                }
                assert(a.len() == b.len()) by {
                    assert(a.skip(1).len() == b.skip(1).len());
                }
                assert(a =~= b);
            }
        }
    } else if b.len() == 0 {
        assert(a =~= b);
    }
}

/// `list` with `x` behind the last text that does not stand behind `x`.
pub open spec fn insert_text(list: Seq<Seq<char>>, x: Seq<char>) -> Seq<Seq<char>>
    decreases list.len(),
{
    if list.len() > 0 && text_before(x, list.last()) {
        insert_text(list.drop_last(), x).push(list.last())
    } else {
        list.push(x)
    }
}

/// The texts in order.
pub open spec fn sorted_texts(list: Seq<Seq<char>>) -> Seq<Seq<char>>
    decreases list.len(),
{
    if list.len() == 0 {
        seq![]
    } else {
        insert_text(sorted_texts(list.drop_last()), list.last())
    }
}

pub open spec fn texts_in_order(list: Seq<Seq<char>>) -> bool {
    forall|i: int, j: int| 0 <= i < j < list.len() ==> !text_before(#[trigger] list[j], #[trigger] list[i])
}

proof fn lemma_insert_text(list: Seq<Seq<char>>, x: Seq<char>)
    requires
        texts_in_order(list),
    ensures
        texts_in_order(insert_text(list, x)),
        insert_text(list, x).to_multiset() =~= list.to_multiset().insert(x),
        insert_text(list, x).len() == list.len() + 1,
        forall|i: int|
            0 <= i < insert_text(list, x).len() ==> #[trigger] insert_text(list, x)[i] == x
                || list.contains(insert_text(list, x)[i]),
    decreases list.len(),
{
    broadcast use vstd::seq_lib::group_to_multiset_ensures;

    if list.len() > 0 && text_before(x, list.last()) {
        let rest = list.drop_last();
        lemma_insert_text(rest, x);
        let placed = insert_text(rest, x);
        let out = placed.push(list.last());
        assert(list =~= rest.push(list.last()));
        assert forall|i: int, j: int| 0 <= i < j < out.len() implies !text_before(
            #[trigger] out[j],
            #[trigger] out[i],
        ) by {
            if j == placed.len() {
                assert(out[i] == placed[i]);
                if placed[i] == x {
                    lemma_text_order(x, list.last(), x);
                } else {
                    let k = choose|k: int| 0 <= k < rest.len() && rest[k] == placed[i];
                    assert(list[k] == placed[i]);
                    assert(!text_before(list[list.len() - 1], list[k]));
                }
            } else {
                assert(out[i] == placed[i] && out[j] == placed[j]);
            }
        }
        assert forall|i: int| 0 <= i < out.len() implies #[trigger] out[i] == x || list.contains(
            out[i],
        ) by {
            if i < placed.len() {
                assert(out[i] == placed[i]);
                if placed[i] != x {
                    let k = choose|k: int| 0 <= k < rest.len() && rest[k] == placed[i];
                    assert(list[k] == placed[i]);
                }
            } else {
                assert(out[i] == list[list.len() - 1]);
            }
        }
    } else {
        let out = list.push(x);
        assert forall|i: int, j: int| 0 <= i < j < out.len() implies !text_before(
            #[trigger] out[j],
            #[trigger] out[i],
        ) by {
            if j == list.len() {
                assert(out[i] == list[i]);
                if i < list.len() - 1 {
                    assert(!text_before(list[list.len() - 1], list[i]));
                    lemma_text_order(list[i], list.last(), x);
                    lemma_text_order(x, list[i], list.last());
                }
            } else {
                assert(out[i] == list[i] && out[j] == list[j]);
            }
        }
    }
}

/// Sorting texts keeps each of them and puts them in order.
pub proof fn law_sorted_texts(list: Seq<Seq<char>>)
    ensures
        texts_in_order(sorted_texts(list)),
        sorted_texts(list).to_multiset() == list.to_multiset(),
    decreases list.len(),
{
    broadcast use vstd::seq_lib::group_to_multiset_ensures;

    if list.len() == 0 {
        assert(list =~= Seq::<Seq<char>>::empty());
    } else {
        law_sorted_texts(list.drop_last());
        lemma_insert_text(sorted_texts(list.drop_last()), list.last());
        assert(list =~= list.drop_last().push(list.last()));
    }
}

/// Sorts texts.
pub fn sort_texts(list: &Vec<String>) -> (out: Vec<String>)
    ensures
        texts(out@) == sorted_texts(texts(list@)),
{
    let ghost all = texts(list@);
    let mut out: Vec<String> = Vec::new();
    let mut i: usize = 0;
    proof {
        assert(all.take(0) =~= Seq::<Seq<char>>::empty());
        assert(texts(out@) =~= Seq::<Seq<char>>::empty());
    }
    while i < list.len()
        invariant
            i <= list@.len(),
            all == texts(list@),
            texts(out@) == sorted_texts(all.take(i as int)),
        decreases list@.len() - i,
    {
        proof {
            assert(all.take(i + 1).drop_last() =~= all.take(i as int));
            assert(all.take(i + 1).last() == list@[i as int]@);
        }
        let ghost before = texts(out@);
        let ghost x = list@[i as int]@;
        let mut p: usize = out.len();
        proof {
            assert(before.take(p as int) =~= before);
            assert(insert_text(before, x) + before.skip(p as int) =~= insert_text(before, x));
        }
        while p > 0 && is_text_before(list[i].as_str(), out[p - 1].as_str())
            invariant
                p <= out@.len(),
                i < list@.len(),
                x == list@[i as int]@,
                before == texts(out@),
                insert_text(before, x) == insert_text(before.take(p as int), x) + before.skip(
                    p as int,
                ),
            decreases p,
        {
            proof {
                assert(before.take(p as int).drop_last() =~= before.take(p - 1));
                assert(before.take(p as int).last() == before[p - 1]);
                assert(insert_text(before.take(p - 1), x).push(before[p - 1]) + before.skip(p as int)
                    =~= insert_text(before.take(p - 1), x) + before.skip(p - 1));
            }
            p -= 1;
        }
        proof {
            if p > 0 {
                assert(before.take(p as int).last() == out@[p - 1]@);
            }
            assert(insert_text(before.take(p as int), x) == before.take(p as int).push(x));
        }
        out.insert(p, list[i].clone());
        proof {
            assert(texts(out@) =~= before.take(p as int).push(x) + before.skip(p as int));
        }
        i += 1;
    }
    proof {
        assert(all.take(i as int) =~= all);
    }
    out
}

// ---------------------------------------------------------------------------------------------
// Log entries
// ---------------------------------------------------------------------------------------------
/// `a` stands before `b` in the log: by time, then by number, then by id.
pub open spec fn log_before(a: LogEntryView, b: LogEntryView) -> bool {
    if a.created_at != b.created_at {
        a.created_at < b.created_at
    } else if a.sequence != b.sequence {
        a.sequence < b.sequence
    } else {
        text_before(a.id, b.id)
    }
}

fn is_log_before(a: &LogEntry, b: &LogEntry) -> (r: bool)
    ensures
        r == log_before(a@, b@),
{
    if a.created_at != b.created_at {
        a.created_at < b.created_at
    } else if a.sequence != b.sequence {
        a.sequence < b.sequence
    } else {
        is_text_before(a.id.as_str(), b.id.as_str())
    }
}

/// `list` with `x` behind the last entry that does not stand behind `x`.
pub open spec fn insert_log(list: Seq<LogEntryView>, x: LogEntryView) -> Seq<LogEntryView>
    decreases list.len(),
{
    if list.len() > 0 && log_before(x, list.last()) {
        insert_log(list.drop_last(), x).push(list.last())
    } else {
        list.push(x)
    }
}

/// The entries in order. Entries that the order does not part stay as they stood.
pub open spec fn sorted_logs(list: Seq<LogEntryView>) -> Seq<LogEntryView>
    decreases list.len(),
{
    if list.len() == 0 {
        seq![]
    } else {
        insert_log(sorted_logs(list.drop_last()), list.last())
    }
}

pub open spec fn logs_in_order(list: Seq<LogEntryView>) -> bool {
    forall|i: int, j: int| 0 <= i < j < list.len() ==> !log_before(#[trigger] list[j], #[trigger] list[i])
}

proof fn lemma_insert_log(list: Seq<LogEntryView>, x: LogEntryView)
    requires
        logs_in_order(list),
    ensures
        logs_in_order(insert_log(list, x)),
        insert_log(list, x).to_multiset() =~= list.to_multiset().insert(x),
        insert_log(list, x).len() == list.len() + 1,
        forall|i: int|
            0 <= i < insert_log(list, x).len() ==> #[trigger] insert_log(list, x)[i] == x
                || list.contains(insert_log(list, x)[i]),
    decreases list.len(),
{
    broadcast use vstd::seq_lib::group_to_multiset_ensures;

    if list.len() > 0 && log_before(x, list.last()) {
        let rest = list.drop_last();
        lemma_insert_log(rest, x);
        let placed = insert_log(rest, x);
        let out = placed.push(list.last());
        assert(list =~= rest.push(list.last()));
        assert forall|i: int, j: int| 0 <= i < j < out.len() implies !log_before(
            #[trigger] out[j],
            #[trigger] out[i],
        ) by {
            if j == placed.len() {
                assert(out[i] == placed[i]);
                if placed[i] == x {
                    lemma_text_order(x.id, list.last().id, x.id);
                } else {
                    let k = choose|k: int| 0 <= k < rest.len() && rest[k] == placed[i];
                    assert(list[k] == placed[i]);
                    assert(!log_before(list[list.len() - 1], list[k]));
                }
            } else {
                assert(out[i] == placed[i] && out[j] == placed[j]);
            }
        }
        assert forall|i: int| 0 <= i < out.len() implies #[trigger] out[i] == x || list.contains(
            out[i],
        ) by {
            if i < placed.len() {
                assert(out[i] == placed[i]);
                if placed[i] != x {
                    let k = choose|k: int| 0 <= k < rest.len() && rest[k] == placed[i];
                    assert(list[k] == placed[i]);
                }
            } else {
                assert(out[i] == list[list.len() - 1]);
            }
        }
    } else {
        let out = list.push(x);
        assert forall|i: int, j: int| 0 <= i < j < out.len() implies !log_before(
            #[trigger] out[j],
            #[trigger] out[i],
        ) by {
            if j == list.len() {
                assert(out[i] == list[i]);
                if i < list.len() - 1 {
                    assert(!log_before(list[list.len() - 1], list[i]));
                    lemma_text_order(list[i].id, list.last().id, x.id);
                    lemma_text_order(x.id, list[i].id, list.last().id);
                }
            } else {
                assert(out[i] == list[i] && out[j] == list[j]);
            }
        }
    }
}

/// Sorting entries keeps each of them and puts them in order.
pub proof fn law_sorted_logs(list: Seq<LogEntryView>)
    ensures
        logs_in_order(sorted_logs(list)),
        sorted_logs(list).to_multiset() == list.to_multiset(),
    decreases list.len(),
{
    broadcast use vstd::seq_lib::group_to_multiset_ensures;

    if list.len() == 0 {
        assert(list =~= Seq::<LogEntryView>::empty());
    } else {
        law_sorted_logs(list.drop_last());
        lemma_insert_log(sorted_logs(list.drop_last()), list.last());
        assert(list =~= list.drop_last().push(list.last()));
    }
}

/// Sorts the entries of a log.
pub fn sort_logs(list: &Vec<LogEntry>) -> (out: Vec<LogEntry>)
    ensures
        log_views(out@) == sorted_logs(log_views(list@)),
{
    let ghost all = log_views(list@);
    let mut out: Vec<LogEntry> = Vec::new();
    let mut i: usize = 0;
    proof {
        assert(all.take(0) =~= Seq::<LogEntryView>::empty());
        assert(log_views(out@) =~= Seq::<LogEntryView>::empty());
    }
    while i < list.len()
        invariant
            i <= list@.len(),
            all == log_views(list@),
            log_views(out@) == sorted_logs(all.take(i as int)),
        decreases list@.len() - i,
    {
        proof {
            assert(all.take(i + 1).drop_last() =~= all.take(i as int));
            assert(all.take(i + 1).last() == list@[i as int]@);
        }
        let ghost before = log_views(out@);
        let ghost x = list@[i as int]@;
        let mut p: usize = out.len();
        proof {
            assert(before.take(p as int) =~= before);
            assert(insert_log(before, x) + before.skip(p as int) =~= insert_log(before, x));
        }
        while p > 0 && is_log_before(&list[i], &out[p - 1])
            invariant
                p <= out@.len(),
                i < list@.len(),
                x == list@[i as int]@,
                before == log_views(out@),
                insert_log(before, x) == insert_log(before.take(p as int), x) + before.skip(
                    p as int,
                ),
            decreases p,
        {
            proof {
                assert(before.take(p as int).drop_last() =~= before.take(p - 1));
                assert(before.take(p as int).last() == before[p - 1]);
                assert(insert_log(before.take(p - 1), x).push(before[p - 1]) + before.skip(p as int)
                    =~= insert_log(before.take(p - 1), x) + before.skip(p - 1));
            }
            p -= 1;
        }
        proof {
            if p > 0 {
                assert(before.take(p as int).last() == out@[p - 1]@);
            }
            assert(insert_log(before.take(p as int), x) == before.take(p as int).push(x));
        }
        out.insert(p, list[i].clone());
        proof {
            assert(log_views(out@) =~= before.take(p as int).push(x) + before.skip(p as int));
        }
        i += 1;
    }
    proof {
        assert(all.take(i as int) =~= all);
    }
    out
}

} // verus!
