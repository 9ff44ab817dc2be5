//! How long the entries of a log stay.
use vstd::prelude::*;

use crate::logs::{
    cutoff, expendable, expendables, expired, id_in, id_not_in, log_ids, pruned, retained,
    runtime_days, surplus_ids, surplus_of_count, within_retention,
    DELETED_INSTANCE_LOG_RETENTION_DAYS,
};
use crate::model::LogEntryView;

verus! {

/// The days that were set are counted back from now, a day being 86400 seconds, and one day at
/// least; the entries of a deleted instance have seven days.
pub proof fn law_cutoffs_count_days_back(days: u32, now: u64)
    ensures
        days >= 1 && days * 86_400 <= now ==> cutoff(now, runtime_days(days)) == now - days
            * 86_400,
        days >= 1 && days * 86_400 > now ==> cutoff(now, runtime_days(days)) == 0,
        cutoff(now, runtime_days(0)) == cutoff(now, runtime_days(1)),
        now >= 604_800 ==> cutoff(now, DELETED_INSTANCE_LOG_RETENTION_DAYS as nat) == now
            - 604_800,
        now < 604_800 ==> cutoff(now, DELETED_INSTANCE_LOG_RETENTION_DAYS as nat) == 0,
{
}

/// An entry is of an instance that is not there any more.
pub open spec fn lost_its_instance(entry: LogEntryView, active: Seq<Seq<char>>) -> bool {
    entry.instance_id matches Some(id) && !active.contains(id)
}

/// An entry has had its time: a runtime entry after the days that were set, an entry of an instance
/// that is not there any more after seven.
pub open spec fn has_had_its_time(
    entry: LogEntryView,
    active: Seq<Seq<char>>,
    days: u32,
    now: u64,
) -> bool {
    ||| entry.category == "runtime"@ && entry.created_at + days * 86_400 < now
    ||| lost_its_instance(entry, active) && entry.created_at + 604_800 < now
}

/// Whether an entry is kept by its age alone.
proof fn lemma_age_decides(entry: LogEntryView, active: Seq<Seq<char>>, days: u32, now: u64)
    requires
        days >= 1,
    ensures
        within_retention(entry, active, days, now) == !has_had_its_time(entry, active, days, now),
        expendable(entry, active) == (entry.category == "runtime"@ || lost_its_instance(
            entry,
            active,
        )),
{
    law_cutoffs_count_days_back(days, now);
}

/// Where no more than 100000 entries are held, exactly those stay that have not had their time, in
/// their order, and exactly the others are removed. So an entry of an active instance that is no
/// older than the days that were set stays.
pub proof fn law_age_alone_removes_from_a_short_log(
    logs: Seq<LogEntryView>,
    active: Seq<Seq<char>>,
    days: u32,
    now: u64,
)
    requires
        days >= 1,
        logs.len() <= 100_000,
    ensures
        pruned(logs, active, days, now).0 == logs.filter(
            |e: LogEntryView| !has_had_its_time(e, active, days, now),
        ),
        pruned(logs, active, days, now).1 == logs.filter(
            |e: LogEntryView| has_had_its_time(e, active, days, now),
        ).map_values(|e: LogEntryView| e.id),
        forall|k: int|
            0 <= k < logs.len() && !has_had_its_time(#[trigger] logs[k], active, days, now)
                ==> pruned(logs, active, days, now).0.contains(logs[k]),
{
    let keep = |e: LogEntryView| !has_had_its_time(e, active, days, now);
    let go = |e: LogEntryView| has_had_its_time(e, active, days, now);
    assert forall|e: LogEntryView| #[trigger] keep(e) == retained(active, days, now)(e) && go(e)
        == expired(active, days, now)(e) by {
        lemma_age_decides(e, active, days, now);
    }
    lemma_filter_same(logs, keep, retained(active, days, now));
    lemma_filter_same(logs, go, expired(active, days, now));
    let first = logs.filter(keep);
    lemma_filter_len(logs, keep);
    assert(surplus_ids(first, active) =~= seq![]);
    lemma_filter_all(first, id_not_in(seq![]));
    lemma_filter_none(first, id_in(seq![]));
    assert(log_ids(Seq::<LogEntryView>::empty()) =~= Seq::<Seq<char>>::empty());
    assert(log_ids(logs.filter(go)) =~= logs.filter(go).map_values(|e: LogEntryView| e.id));
    assert(log_ids(logs.filter(go)) + Seq::<Seq<char>>::empty() =~= log_ids(logs.filter(go)));
    assert forall|k: int|
        0 <= k < logs.len() && !has_had_its_time(#[trigger] logs[k], active, days, now) implies
        first.contains(logs[k]) by {
        assert(keep(logs[k]));
        logs.lemma_filter_contains(keep, k);
    }
}

/// Equal tests pick the same elements.
pub proof fn lemma_filter_same<T>(list: Seq<T>, p: spec_fn(T) -> bool, q: spec_fn(T) -> bool)
    requires
        forall|x: T| #[trigger] p(x) == q(x),
    ensures
        list.filter(p) == list.filter(q),
    decreases list.len(),
{
    reveal(Seq::filter);
    if list.len() > 0 {
        lemma_filter_same(list.drop_last(), p, q);
        assert(p(list.last()) == q(list.last()));
    }
}

pub proof fn lemma_filter_len<T>(list: Seq<T>, p: spec_fn(T) -> bool)
    ensures
        list.filter(p).len() <= list.len(),
    decreases list.len(),
{
    reveal(Seq::filter);
    if list.len() > 0 {
        lemma_filter_len(list.drop_last(), p);
    }
}

pub proof fn lemma_filter_all<T>(list: Seq<T>, p: spec_fn(T) -> bool)
    requires
        forall|i: int| 0 <= i < list.len() ==> p(#[trigger] list[i]),
    ensures
        list.filter(p) == list,
    decreases list.len(),
{
    reveal(Seq::filter);
    if list.len() > 0 {
        lemma_filter_all(list.drop_last(), p);
        assert(p(list[list.len() - 1]));
        assert(list =~= list.drop_last().push(list.last()));
    } else {
        assert(list =~= Seq::<T>::empty());
    }
}

pub proof fn lemma_filter_none<T>(list: Seq<T>, p: spec_fn(T) -> bool)
    requires
        forall|i: int| 0 <= i < list.len() ==> !p(#[trigger] list[i]),
    ensures
        list.filter(p) == Seq::<T>::empty(),
    decreases list.len(),
{
    reveal(Seq::filter);
    if list.len() > 0 {
        lemma_filter_none(list.drop_last(), p);
        assert(!p(list[list.len() - 1]));
    }
}

/// The element at `k` is picked behind those that are picked before it.
pub proof fn lemma_filter_place<T>(list: Seq<T>, p: spec_fn(T) -> bool, k: int)
    requires
        0 <= k < list.len(),
        p(list[k]),
    ensures
        list.take(k).filter(p).len() < list.filter(p).len(),
        list.filter(p)[list.take(k).filter(p).len() as int] == list[k],
    decreases list.len(),
{
    reveal(Seq::filter);
    let rest = list.drop_last();
    if k == list.len() - 1 {
        assert(list.take(k) =~= rest);
    } else {
        assert(rest.take(k) =~= list.take(k));
        assert(rest[k] == list[k]);
        lemma_filter_place(rest, p, k);
    }
}

/// What is picked at `i` stands behind exactly `i` others that are picked.
pub proof fn lemma_filter_source<T>(list: Seq<T>, p: spec_fn(T) -> bool, i: int) -> (k: int)
    requires
        0 <= i < list.filter(p).len(),
    ensures
        0 <= k < list.len(),
        p(list[k]),
        list[k] == list.filter(p)[i],
        list.take(k).filter(p).len() == i,
    decreases list.len(),
{
    reveal(Seq::filter);
    let rest = list.drop_last();
    if p(list.last()) && i == list.filter(p).len() - 1 {
        assert(list.take(list.len() - 1) =~= rest);
        list.len() - 1
    } else {
        let k = lemma_filter_source(rest, p, i);
        assert(rest.take(k) =~= list.take(k));
        k
    }
}

/// Where more than 100000 entries have not had their time, the oldest that may go make room for
/// 1000 more than that: of those that are left, a runtime entry or one whose instance is not there
/// any more goes exactly where fewer than the surplus and 1000 such entries stand before it. No
/// other entry goes.
pub proof fn law_oldest_entries_make_room(
    logs: Seq<LogEntryView>,
    active: Seq<Seq<char>>,
    days: u32,
    now: u64,
    k: int,
)
    requires
        days >= 1,
        forall|i: int, j: int|
            0 <= i < j < logs.len() ==> (#[trigger] logs[i]).id != (#[trigger] logs[j]).id,
        ({
            let left = logs.filter(|e: LogEntryView| !has_had_its_time(e, active, days, now));
            left.len() > 100_000 && 0 <= k < left.len()
        }),
    ensures
        ({
            let left = logs.filter(|e: LogEntryView| !has_had_its_time(e, active, days, now));
            let may_go = |e: LogEntryView| e.category == "runtime"@ || lost_its_instance(e, active);
            pruned(logs, active, days, now).0.contains(left[k]) <==> !(may_go(left[k])
                && left.take(k).filter(may_go).len() < left.len() - 99_000)
        }),
{
    let keep = |e: LogEntryView| !has_had_its_time(e, active, days, now);
    let may_go = |e: LogEntryView| e.category == "runtime"@ || lost_its_instance(e, active);
    assert forall|e: LogEntryView| #[trigger] keep(e) == retained(active, days, now)(e) by {
        lemma_age_decides(e, active, days, now);
    }
    assert forall|e: LogEntryView| #[trigger] may_go(e) == expendables(active)(e) by {
        lemma_age_decides(e, active, days, now);
    }
    lemma_filter_same(logs, keep, retained(active, days, now));
    let left = logs.filter(keep);
    lemma_filter_same(left, may_go, expendables(active));
    lemma_filter_same(left.take(k), may_go, expendables(active));
    let spare = left.filter(may_go);
    let surplus = surplus_ids(left, active);
    let n = (left.len() - 99_000) as nat;
    assert(surplus_of_count(left.len()) == n);
    lemma_ids_stay_apart(logs, keep);
    let stays = left.filter(id_not_in(surplus));
    let gone = may_go(left[k]) && left.take(k).filter(may_go).len() < n;
    if gone {
        lemma_filter_place(left, may_go, k);
        let r = left.take(k).filter(may_go).len() as int;
        assert(log_ids(spare)[r] == left[k].id);
        assert(surplus[r] == left[k].id);
        if stays.contains(left[k]) {
            let m = choose|m: int| 0 <= m < stays.len() && stays[m] == left[k];
            left.lemma_filter_pred(id_not_in(surplus), m);
        }
    } else {
        if surplus.contains(left[k].id) {
            let r = choose|r: int| 0 <= r < surplus.len() && surplus[r] == left[k].id;
            assert(log_ids(spare)[r] == left[k].id);
            let m = lemma_filter_source(left, may_go, r);
            assert(left[m].id == left[k].id);
            assert(m == k);
        }
        assert(id_not_in(surplus)(left[k]));
        left.lemma_filter_contains(id_not_in(surplus), k);
    }
}

/// Entries that are picked from those with different ids have different ids.
proof fn lemma_ids_stay_apart(logs: Seq<LogEntryView>, p: spec_fn(LogEntryView) -> bool)
    requires
        forall|i: int, j: int|
            0 <= i < j < logs.len() ==> (#[trigger] logs[i]).id != (#[trigger] logs[j]).id,
    ensures
        forall|i: int, j: int|
            0 <= i < j < logs.filter(p).len() ==> (#[trigger] logs.filter(p)[i]).id != (
            #[trigger] logs.filter(p)[j]).id,
{
    assert forall|i: int, j: int| 0 <= i < j < logs.filter(p).len() implies (
    #[trigger] logs.filter(p)[i]).id != (#[trigger] logs.filter(p)[j]).id by {
        let a = lemma_filter_source(logs, p, i);
        let b = lemma_filter_source(logs, p, j);
        if a == b {
            assert(false);
        }
    }
}

} // verus!
