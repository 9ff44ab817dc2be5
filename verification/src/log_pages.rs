//! What the pages of a stored log hold together.
//!
//! A database selects the entries of a page: those between the bounds of a query, in the order of
//! their numbers, up to a count. It compares the numbers as signed ones.
use vstd::prelude::*;

use crate::logs::{first_of, least_sequence, page_size};
use crate::model::LogEntryView;

verus! {

// ---------------------------------------------------------------------------------------------
// What a query selects
// ---------------------------------------------------------------------------------------------
/// A number as a signed one of 64 bits.
pub open spec fn signed(n: u64) -> int {
    if n < 0x8000_0000_0000_0000 {
        n as int
    } else {
        n - 0x1_0000_0000_0000_0000
    }
}

/// The entries with numbers below one bound and above another.
pub open spec fn between(before: Option<u64>, after: Option<u64>) -> spec_fn(LogEntryView) -> bool {
    |l: LogEntryView|
        (before matches Some(n) ==> signed(l.sequence) < signed(n)) && (after matches Some(n)
            ==> signed(l.sequence) > signed(n))
}

/// An entry comes before another one: by rising numbers, or by falling ones.
pub open spec fn comes_before(a: LogEntryView, b: LogEntryView, rising: bool) -> bool {
    if rising {
        signed(a.sequence) < signed(b.sequence)
    } else {
        signed(a.sequence) > signed(b.sequence)
    }
}

/// `list` with `x` behind the last entry that does not come behind `x`.
pub open spec fn insert_by_number(
    list: Seq<LogEntryView>,
    x: LogEntryView,
    rising: bool,
) -> Seq<LogEntryView>
    decreases list.len(),
{
    if list.len() > 0 && comes_before(x, list.last(), rising) {
        insert_by_number(list.drop_last(), x, rising).push(list.last())
    } else {
        list.push(x)
    }
}

/// The entries in the order of their numbers.
pub open spec fn by_number(list: Seq<LogEntryView>, rising: bool) -> Seq<LogEntryView>
    decreases list.len(),
{
    if list.len() == 0 {
        seq![]
    } else {
        insert_by_number(by_number(list.drop_last(), rising), list.last(), rising)
    }
}

/// The stored entries that a query matches, in its order: the oldest first where it has a lower
/// bound, else the newest first.
pub open spec fn matching(
    stored: Seq<LogEntryView>,
    before: Option<u64>,
    after: Option<u64>,
) -> Seq<LogEntryView> {
    by_number(stored.filter(between(before, after)), after is Some)
}

/// What the database hands out for a query: up to `count` entries that match.
pub open spec fn selected(
    stored: Seq<LogEntryView>,
    before: Option<u64>,
    after: Option<u64>,
    count: nat,
) -> Seq<LogEntryView> {
    first_of(matching(stored, before, after), count)
}

/// No two entries have the same number.
pub open spec fn numbers_differ(list: Seq<LogEntryView>) -> bool {
    forall|i: int, j: int|
        0 <= i < j < list.len() ==> (#[trigger] list[i]).sequence != (#[trigger] list[j]).sequence
}

/// Each entry comes before those behind it.
pub open spec fn in_number_order(list: Seq<LogEntryView>, rising: bool) -> bool {
    forall|i: int, j: int|
        0 <= i < j < list.len() ==> comes_before(#[trigger] list[i], #[trigger] list[j], rising)
}

proof fn lemma_insert_by_number(list: Seq<LogEntryView>, x: LogEntryView, rising: bool)
    requires
        in_number_order(list, rising),
        forall|i: int| 0 <= i < list.len() ==> (#[trigger] list[i]).sequence != x.sequence,
    ensures
        in_number_order(insert_by_number(list, x, rising), rising),
        insert_by_number(list, x, rising).to_multiset() =~= list.to_multiset().insert(x),
        forall|i: int|
            0 <= i < insert_by_number(list, x, rising).len() ==> #[trigger] insert_by_number(
                list,
                x,
                rising,
            )[i] == x || list.contains(insert_by_number(list, x, rising)[i]),
    decreases list.len(),
{
    broadcast use vstd::seq_lib::group_to_multiset_ensures;

    let out = insert_by_number(list, x, rising);
    if list.len() > 0 && comes_before(x, list.last(), rising) {
        let rest = list.drop_last();
        assert forall|i: int, j: int| 0 <= i < j < rest.len() implies comes_before(
            #[trigger] rest[i],
            #[trigger] rest[j],
            rising,
        ) by {
            assert(rest[i] == list[i] && rest[j] == list[j]);
        }
        assert forall|i: int| 0 <= i < rest.len() implies (#[trigger] rest[i]).sequence
            != x.sequence by {
            assert(rest[i] == list[i]);
        }
        lemma_insert_by_number(rest, x, rising);
        let placed = insert_by_number(rest, x, rising);
        assert(list =~= rest.push(list.last()));
        assert forall|i: int| 0 <= i < out.len() implies #[trigger] out[i] == x || list.contains(
            out[i],
        ) by {
            if i < placed.len() {
                assert(out[i] == placed[i]);
                if placed[i] != x {
                    let k = choose|k: int| 0 <= k < rest.len() && rest[k] == placed[i];
                    assert(list[k] == placed[i]);
                }
            } else {
                assert(out[i] == list[list.len() - 1]);
            }
        }
        assert forall|i: int, j: int| 0 <= i < j < out.len() implies comes_before(
            #[trigger] out[i],
            #[trigger] out[j],
            rising,
        ) by {
            assert(out[i] == placed[i]);
            if j == placed.len() {
                if placed[i] != x {
                    let k = choose|k: int| 0 <= k < rest.len() && rest[k] == placed[i];
                    assert(list[k] == placed[i]);
                    assert(comes_before(list[k], list[list.len() - 1], rising));
                }
            } else {
                assert(out[j] == placed[j]);
            }
        }
    } else {
        assert forall|i: int, j: int| 0 <= i < j < out.len() implies comes_before(
            #[trigger] out[i],
            #[trigger] out[j],
            rising,
        ) by {
            assert(out[i] == list[i]);
            if j == list.len() {
                assert(list[list.len() - 1].sequence != x.sequence);
                if i < list.len() - 1 {
                    assert(comes_before(list[i], list[list.len() - 1], rising));
                }
            } else {
                assert(out[j] == list[j]);
            }
        }
    }
}

/// Ordering entries by their numbers keeps each of them.
proof fn lemma_by_number(list: Seq<LogEntryView>, rising: bool)
    requires
        numbers_differ(list),
    ensures
        in_number_order(by_number(list, rising), rising),
        by_number(list, rising).to_multiset() == list.to_multiset(),
        by_number(list, rising).len() == list.len(),
        forall|i: int|
            0 <= i < list.len() ==> list.contains(#[trigger] by_number(list, rising)[i]),
    decreases list.len(),
{
    broadcast use vstd::seq_lib::group_to_multiset_ensures;

    if list.len() == 0 {
        assert(list =~= Seq::<LogEntryView>::empty());
    } else {
        let rest = list.drop_last();
        let x = list.last();
        let done = by_number(rest, rising);
        assert forall|i: int, j: int| 0 <= i < j < rest.len() implies (#[trigger] rest[i]).sequence
            != (#[trigger] rest[j]).sequence by {
            assert(rest[i] == list[i] && rest[j] == list[j]);
        }
        lemma_by_number(rest, rising);
        assert forall|i: int| 0 <= i < done.len() implies (#[trigger] done[i]).sequence
            != x.sequence by {
            let k = choose|k: int| 0 <= k < rest.len() && rest[k] == done[i];
            assert(list[k] == done[i]);
            assert(list[k].sequence != list[list.len() - 1].sequence);
        }
        lemma_insert_by_number(done, x, rising);
        let out = by_number(list, rising);
        assert(list =~= rest.push(x));
        assert(out.to_multiset().len() == list.to_multiset().len());
        assert forall|i: int| 0 <= i < list.len() implies list.contains(#[trigger] out[i]) by {
            if out[i] == x {
                assert(list[list.len() - 1] == x);
            } else {
                let k = choose|k: int| 0 <= k < done.len() && done[k] == out[i];
                let m = choose|m: int| 0 <= m < rest.len() && rest[m] == done[k];
                assert(list[m] == out[i]);
            }
        }
    }
}

/// Entries that are picked from those with different numbers have different numbers.
proof fn lemma_picked_differ(list: Seq<LogEntryView>, p: spec_fn(LogEntryView) -> bool)
    requires
        numbers_differ(list),
    ensures
        numbers_differ(list.filter(p)),
    decreases list.len(),
{
    reveal(Seq::filter);
    if list.len() > 0 {
        let rest = list.drop_last();
        assert forall|i: int, j: int| 0 <= i < j < rest.len() implies (#[trigger] rest[i]).sequence
            != (#[trigger] rest[j]).sequence by {
            assert(rest[i] == list[i] && rest[j] == list[j]);
        }
        lemma_picked_differ(rest, p);
        let before = rest.filter(p);
        let out = list.filter(p);
        if p(list.last()) {
            assert forall|i: int, j: int| 0 <= i < j < out.len() implies (
            #[trigger] out[i]).sequence != (#[trigger] out[j]).sequence by {
                assert(out[i] == before[i]);
                if j == before.len() {
                    assert(before.contains(before[i]));
                    rest.lemma_filter_contains_rev(p, before[i]);
                    let k = choose|k: int| 0 <= k < rest.len() && rest[k] == before[i];
                    assert(list[k].sequence != list[list.len() - 1].sequence);
                } else {
                    assert(out[j] == before[j]);
                }
            }
        }
    }
}

/// A page of what a query selects is the start of what it matches, in its order; there are more
/// exactly where more match than a page may hold. One entry more than that tells it.
pub proof fn law_page_is_the_start_of_what_matches(
    stored: Seq<LogEntryView>,
    before: Option<u64>,
    after: Option<u64>,
    limit: usize,
)
    requires
        numbers_differ(stored),
    ensures
        ({
            let size = page_size(limit) as nat;
            let found = selected(stored, before, after, size + 1);
            let all = matching(stored, before, after);
            &&& all.to_multiset() == stored.filter(between(before, after)).to_multiset()
            &&& in_number_order(all, after is Some)
            &&& first_of(found, size) == first_of(all, size)
            &&& (found.len() > size) == (all.len() > size)
        }),
{
    lemma_picked_differ(stored, between(before, after));
    lemma_by_number(stored.filter(between(before, after)), after is Some);
    let size = page_size(limit) as nat;
    let found = selected(stored, before, after, size + 1);
    let all = matching(stored, before, after);
    assert(first_of(found, size) =~= first_of(all, size));
}

// ---------------------------------------------------------------------------------------------
// Page after page
// ---------------------------------------------------------------------------------------------
/// The entries of the pages of a stored log, each page below the least number of the one before it,
/// until there are no more.
pub open spec fn paged(
    stored: Seq<LogEntryView>,
    before: Option<u64>,
    limit: usize,
) -> Seq<LogEntryView>
    decreases matching(stored, before, None).len(),
{
    let size = page_size(limit) as nat;
    let found = selected(stored, before, None, size + 1);
    let page = first_of(found, size);
    match least_sequence(page) {
        Some(n) => if found.len() > size && matching(stored, Some(n), None).len() < matching(
            stored,
            before,
            None,
        ).len() {
            page + paged(stored, Some(n), limit)
        } else {
            page
        },
        None => page,
    }
}

/// Picking entries does not change their order.
proof fn lemma_insert_picked(
    list: Seq<LogEntryView>,
    x: LogEntryView,
    rising: bool,
    p: spec_fn(LogEntryView) -> bool,
)
    requires
        in_number_order(list, rising),
    ensures
        insert_by_number(list, x, rising).filter(p) == (if p(x) {
            insert_by_number(list.filter(p), x, rising)
        } else {
            list.filter(p)
        }),
    decreases list.len(),
{
    reveal(Seq::filter);
    let out = insert_by_number(list, x, rising);
    if list.len() > 0 && comes_before(x, list.last(), rising) {
        let rest = list.drop_last();
        assert forall|i: int, j: int| 0 <= i < j < rest.len() implies comes_before(
            #[trigger] rest[i],
            #[trigger] rest[j],
            rising,
        ) by {
            assert(rest[i] == list[i] && rest[j] == list[j]);
        }
        lemma_insert_picked(rest, x, rising, p);
        assert(out.drop_last() =~= insert_by_number(rest, x, rising));
        if p(list.last()) {
            assert(list.filter(p).drop_last() =~= rest.filter(p));
        }
    } else {
        assert(out.drop_last() =~= list);
        let picked = list.filter(p);
        if p(x) && picked.len() > 0 {
            let last = picked.last();
            assert(picked.contains(last));
            list.lemma_filter_contains_rev(p, last);
            let k = choose|k: int| 0 <= k < list.len() && list[k] == last;
            if k < list.len() - 1 {
                assert(comes_before(list[k], list[list.len() - 1], rising));
            }
        }
    }
}

proof fn lemma_by_number_picked(
    list: Seq<LogEntryView>,
    rising: bool,
    p: spec_fn(LogEntryView) -> bool,
)
    requires
        numbers_differ(list),
    ensures
        by_number(list.filter(p), rising) == by_number(list, rising).filter(p),
    decreases list.len(),
{
    reveal(Seq::filter);
    if list.len() > 0 {
        let rest = list.drop_last();
        assert forall|i: int, j: int| 0 <= i < j < rest.len() implies (#[trigger] rest[i]).sequence
            != (#[trigger] rest[j]).sequence by {
            assert(rest[i] == list[i] && rest[j] == list[j]);
        }
        lemma_by_number_picked(rest, rising, p);
        lemma_by_number(rest, rising);
        lemma_insert_picked(by_number(rest, rising), list.last(), rising, p);
        if p(list.last()) {
            assert(list.filter(p).drop_last() =~= rest.filter(p));
        }
    }
}

/// The least number of entries with falling numbers is that of the last.
proof fn lemma_least_of_falling(logs: Seq<LogEntryView>)
    requires
        logs.len() > 0,
        forall|i: int, j: int|
            0 <= i < j < logs.len() ==> (#[trigger] logs[i]).sequence > (
            #[trigger] logs[j]).sequence,
    ensures
        least_sequence(logs) == Some(logs.last().sequence),
    decreases logs.len(),
{
    if logs.len() > 1 {
        let rest = logs.drop_last();
        assert forall|i: int, j: int| 0 <= i < j < rest.len() implies (#[trigger] rest[i]).sequence
            > (#[trigger] rest[j]).sequence by {
            assert(rest[i] == logs[i] && rest[j] == logs[j]);
        }
        lemma_least_of_falling(rest);
        assert(logs[logs.len() - 2].sequence > logs[logs.len() - 1].sequence);
    } else {
        reveal_with_fuel(least_sequence, 2);
    }
}

/// Filtering keeps a start that fails and an end that passes apart.
proof fn lemma_filter_end(logs: Seq<LogEntryView>, p: spec_fn(LogEntryView) -> bool, k: int)
    requires
        0 <= k <= logs.len(),
        forall|i: int| 0 <= i < k ==> !p(#[trigger] logs[i]),
        forall|i: int| k <= i < logs.len() ==> p(#[trigger] logs[i]),
    ensures
        logs.filter(p) == logs.skip(k),
    decreases logs.len(),
{
    reveal(Seq::filter);
    if logs.len() == 0 {
        assert(logs.skip(k) =~= logs);
    } else if k == logs.len() {
        lemma_filter_end(logs.drop_last(), p, k - 1);
        assert(logs.skip(k) =~= logs.drop_last().skip(k - 1));
    } else {
        lemma_filter_end(logs.drop_last(), p, k);
        assert(logs.skip(k) =~= logs.drop_last().skip(k).push(logs.last()));
    }
}

/// The numbers are those that a signed number can hold.
pub open spec fn numbers_fit(list: Seq<LogEntryView>) -> bool {
    forall|i: int| 0 <= i < list.len() ==> (#[trigger] list[i]).sequence < 0x8000_0000_0000_0000
}

/// The pages from an entry on hold what is left.
proof fn lemma_pages_from(stored: Seq<LogEntryView>, before: Option<u64>, limit: usize, s: int)
    requires
        numbers_differ(stored),
        numbers_fit(stored),
        0 <= s <= stored.len(),
        matching(stored, before, None) == by_number(stored, false).skip(s),
    ensures
        paged(stored, before, limit) == by_number(stored, false).skip(s),
    decreases stored.len() - s,
{
    let all = by_number(stored, false);
    let left = all.skip(s);
    let size = page_size(limit) as nat;
    let found = selected(stored, before, None, size + 1);
    let page = first_of(found, size);
    lemma_by_number(stored, false);
    assert forall|i: int, j: int| 0 <= i < j < all.len() implies (#[trigger] all[i]).sequence > (
    #[trigger] all[j]).sequence by {
        assert(comes_before(all[i], all[j], false));
        let a = choose|a: int| 0 <= a < stored.len() && stored[a] == all[i];
        let b = choose|b: int| 0 <= b < stored.len() && stored[b] == all[j];
        assert(stored[a].sequence < 0x8000_0000_0000_0000);
        assert(stored[b].sequence < 0x8000_0000_0000_0000);
    }
    if found.len() > size {
        assert(page =~= left.take(size as int));
        assert forall|i: int, j: int| 0 <= i < j < page.len() implies (#[trigger] page[i]).sequence
            > (#[trigger] page[j]).sequence by {
            assert(page[i] == all[s + i] && page[j] == all[s + j]);
        }
        lemma_least_of_falling(page);
        let e = s + size;
        let n = all[e - 1].sequence;
        assert(page.last() == all[e - 1]);
        let p = between(Some(n), None);
        assert forall|i: int| 0 <= i < all.len() implies p(#[trigger] all[i]) == (i >= e) by {
            let a = choose|a: int| 0 <= a < stored.len() && stored[a] == all[i];
            assert(stored[a].sequence < 0x8000_0000_0000_0000);
            let b = choose|b: int| 0 <= b < stored.len() && stored[b] == all[e - 1];
            assert(stored[b].sequence < 0x8000_0000_0000_0000);
            if i < e - 1 {
                assert(all[i].sequence > all[e - 1].sequence);
            } else if i > e - 1 {
                assert(all[e - 1].sequence > all[i].sequence);
            }
        }
        lemma_filter_end(all, p, e);
        lemma_by_number_picked(stored, false, p);
        assert(matching(stored, Some(n), None) == all.skip(e));
        lemma_pages_from(stored, Some(n), limit, e);
        assert(page + all.skip(e) =~= left);
    } else {
        assert(page == left);
        if page.len() > 0 {
            assert(found.len() <= size);
        }
    }
}

/// Going through a stored log page by page, each page below the least number of the one before it,
/// until there are no more, gives every entry exactly once, the newest first. So a log that moves
/// from one storage to another in this way moves whole.
pub proof fn law_pages_hold_every_entry_once(stored: Seq<LogEntryView>, limit: usize)
    requires
        numbers_differ(stored),
        numbers_fit(stored),
    ensures
        paged(stored, None, limit).to_multiset() == stored.to_multiset(),
        in_number_order(paged(stored, None, limit), false),
{
    let all = by_number(stored, false);
    lemma_by_number(stored, false);
    let p = between(None, None);
    assert forall|i: int| 0 <= i < stored.len() implies p(#[trigger] stored[i]) by {}
    lemma_filter_end(stored, p, 0);
    assert(stored.skip(0) =~= stored);
    assert(all.skip(0) =~= all);
    lemma_pages_from(stored, None, limit, 0);
}

} // verus!
