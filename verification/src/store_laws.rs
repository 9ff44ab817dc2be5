//! What holds of the store as a whole, of lists of ports and instances, and of the steps that are
//! taken with an instance.
use vstd::prelude::*;

use crate::deploy::{address_lines, change_of_port};
use crate::env::EnvVariableView;
use crate::flow::{deletion_message, edited_record, record_after_failure, record_at, Flow, Step};
use crate::instances::{
    env_file_of, example_below, index_of_instance, insert_newest, newest_first, with_info_line,
    with_info_lines, EntryFacts,
};
use crate::logs::{
    expendable, instance_ids, law_prune_keeps_lifecycle_entries, law_prune_keeps_nothing_expired,
};
use crate::model::{AppStoreView, InstanceRecordView, LogEntryView};
use crate::number::decimal;
use crate::order::{law_sorted_logs, sorted_logs};
use crate::paths::join_path;
use crate::ports::{
    described_port, described_ports, first_available, local_port_key, local_ports, moved_count,
    port_value, service_ports, wanted_ports, with_port, PortChangeView,
};
use crate::project_laws::lemma_inside;
use crate::repair::{deployed_by_log, migrated, numbered, refiled, without_early_restart};
use crate::search::{contains, ends_with, trim, trim_end_all};
use crate::storage::{config_file_error, config_of_file, ConfigFile};
use crate::switching::{switch_fault, SwitchStep};
use crate::text::ascii_upper;
use crate::unicode::unicode_lower;
use crate::urls::url_port;

verus! {

// ---------------------------------------------------------------------------------------------
// Lists of ports
// ---------------------------------------------------------------------------------------------
/// The ports of services are exactly those in their URLs, each under the name of its service.
pub proof fn law_service_ports_are_all_there(
    services: Seq<(Seq<char>, Seq<char>)>,
    name: Seq<char>,
    port: u16,
)
    ensures
        service_ports(services).contains((name, port)) <==> exists|i: int|
            0 <= i < services.len() && ascii_upper((#[trigger] services[i]).0) == name && url_port(
                services[i].1,
            ) is Some && (url_port(services[i].1)->0) as u16 == port,
    decreases services.len(),
{
    let all = service_ports(services);
    if services.len() > 0 {
        let rest = services.drop_last();
        let last = services[services.len() - 1];
        let before = service_ports(rest);
        law_service_ports_are_all_there(rest, name, port);
        if all.contains((name, port)) {
            let k = choose|k: int| 0 <= k < all.len() && all[k] == (name, port);
            if k < before.len() {
                assert(before[k] == (name, port));
                let i = choose|i: int|
                    0 <= i < rest.len() && ascii_upper((#[trigger] rest[i]).0) == name && url_port(
                        rest[i].1,
                    ) is Some && (url_port(rest[i].1)->0) as u16 == port;
                assert(services[i] == rest[i]);
            } else {
                assert(services[services.len() - 1] == last);
            }
        }
        if exists|i: int|
            0 <= i < services.len() && ascii_upper((#[trigger] services[i]).0) == name && url_port(
                services[i].1,
            ) is Some && (url_port(services[i].1)->0) as u16 == port {
            let i = choose|i: int|
                0 <= i < services.len() && ascii_upper((#[trigger] services[i]).0) == name
                    && url_port(services[i].1) is Some && (url_port(services[i].1)->0) as u16
                    == port;
            if i < rest.len() {
                assert(rest[i] == services[i]);
                let k = choose|k: int| 0 <= k < before.len() && before[k] == (name, port);
                assert(all[k] == (name, port));
            } else {
                assert(all[before.len() as int] == (name, port));
            }
        }
    }
}

/// The local ports of variables are exactly those of the variables of local services that hold one,
/// each under the name of its variable without `_PORT`.
pub proof fn law_local_ports_are_all_there(
    entries: Seq<EnvVariableView>,
    name: Seq<char>,
    port: u16,
)
    ensures
        local_ports(entries).contains((name, port)) <==> exists|i: int|
            0 <= i < entries.len() && local_port_key((#[trigger] entries[i]).key) && trim_end_all(
                ascii_upper(entries[i].key),
                "_PORT"@,
            ) == name && port_value(entries[i].value) is Some && (port_value(
                entries[i].value,
            )->0) as u16 == port,
    decreases entries.len(),
{
    let all = local_ports(entries);
    if entries.len() > 0 {
        let rest = entries.drop_last();
        let last = entries[entries.len() - 1];
        let before = local_ports(rest);
        law_local_ports_are_all_there(rest, name, port);
        if all.contains((name, port)) {
            let k = choose|k: int| 0 <= k < all.len() && all[k] == (name, port);
            if k < before.len() {
                assert(before[k] == (name, port));
                let i = choose|i: int|
                    0 <= i < rest.len() && local_port_key((#[trigger] rest[i]).key) && trim_end_all(
                        ascii_upper(rest[i].key),
                        "_PORT"@,
                    ) == name && port_value(rest[i].value) is Some && (port_value(
                        rest[i].value,
                    )->0) as u16 == port;
                assert(entries[i] == rest[i]);
            } else {
                assert(entries[entries.len() - 1] == last);
            }
        }
        if exists|i: int|
            0 <= i < entries.len() && local_port_key((#[trigger] entries[i]).key) && trim_end_all(
                ascii_upper(entries[i].key),
                "_PORT"@,
            ) == name && port_value(entries[i].value) is Some && (port_value(
                entries[i].value,
            )->0) as u16 == port {
            let i = choose|i: int|
                0 <= i < entries.len() && local_port_key((#[trigger] entries[i]).key)
                    && trim_end_all(ascii_upper(entries[i].key), "_PORT"@) == name && port_value(
                    entries[i].value,
                ) is Some && (port_value(entries[i].value)->0) as u16 == port;
            if i < rest.len() {
                assert(rest[i] == entries[i]);
                let k = choose|k: int| 0 <= k < before.len() && before[k] == (name, port);
                assert(all[k] == (name, port));
            } else {
                assert(all[before.len() as int] == (name, port));
            }
        }
    }
}

/// The ports that have to be probed are exactly those above zero in the variables of local services.
pub proof fn law_probed_ports(entries: Seq<EnvVariableView>, port: u16)
    ensures
        wanted_ports(entries).contains(port) <==> port > 0 && exists|i: int|
            0 <= i < entries.len() && local_port_key((#[trigger] entries[i]).key) && port_value(
                entries[i].value,
            ) == Some(port as nat),
    decreases entries.len(),
{
    let all = wanted_ports(entries);
    if entries.len() > 0 {
        let rest = entries.drop_last();
        let last = entries[entries.len() - 1];
        let before = wanted_ports(rest);
        law_probed_ports(rest, port);
        if all.contains(port) {
            let k = choose|k: int| 0 <= k < all.len() && all[k] == port;
            if k < before.len() {
                assert(before[k] == port);
                let i = choose|i: int|
                    0 <= i < rest.len() && local_port_key((#[trigger] rest[i]).key) && port_value(
                        rest[i].value,
                    ) == Some(port as nat);
                assert(entries[i] == rest[i]);
            } else {
                assert(entries[entries.len() - 1] == last);
            }
        }
        if port > 0 && exists|i: int|
            0 <= i < entries.len() && local_port_key((#[trigger] entries[i]).key) && port_value(
                entries[i].value,
            ) == Some(port as nat) {
            let i = choose|i: int|
                0 <= i < entries.len() && local_port_key((#[trigger] entries[i]).key)
                    && port_value(entries[i].value) == Some(port as nat);
            if i < rest.len() {
                assert(rest[i] == entries[i]);
                let k = choose|k: int| 0 <= k < before.len() && before[k] == port;
                assert(all[k] == port);
            } else {
                assert(all[before.len() as int] == port);
            }
        }
    }
}

/// A variable tells where a local service is reached exactly where it is a port of one, or a URL with
/// a host of this machine. The lines are those of all such variables, in their order.
pub proof fn law_address_lines(entries: Seq<EnvVariableView>)
    ensures
        address_lines(entries) == entries.filter(
            |e: EnvVariableView|
                local_port_key(e.key) || contains(ascii_upper(e.key), "URL"@) && (contains(
                    e.value,
                    "127.0.0.1"@,
                ) || contains(e.value, "localhost"@) || contains(e.value, "0.0.0.0"@) || contains(
                    e.value,
                    "[::1]"@,
                )),
        ).map_values(|e: EnvVariableView| e.key + "="@ + e.value),
    decreases entries.len(),
{
    let tells = |e: EnvVariableView|
        local_port_key(e.key) || contains(ascii_upper(e.key), "URL"@) && (contains(
            e.value,
            "127.0.0.1"@,
        ) || contains(e.value, "localhost"@) || contains(e.value, "0.0.0.0"@) || contains(
            e.value,
            "[::1]"@,
        ));
    let line = |e: EnvVariableView| e.key + "="@ + e.value;
    reveal(Seq::filter);
    if entries.len() > 0 {
        law_address_lines(entries.drop_last());
        let rest = entries.drop_last().filter(tells);
        if tells(entries.last()) {
            assert(entries.filter(tells) =~= rest.push(entries.last()));
            assert(rest.push(entries.last()).map_values(line) =~= rest.map_values(line).push(
                line(entries.last()),
            ));
        } else {
            assert(entries.filter(tells) =~= rest);
        }
    }
    assert(address_lines(entries) =~= entries.filter(tells).map_values(line));
}

/// A port was moved as often as changes have it as their old port, and the first of them is the one
/// that moved it.
pub proof fn law_moves_of_a_port(changes: Seq<PortChangeView>, port: u16, i: int)
    ensures
        moved_count(changes, port) == changes.filter(|c: PortChangeView| c.old_port == port).len(),
        0 <= i < changes.len() && changes[i].old_port == port && (forall|j: int|
            0 <= j < i ==> (#[trigger] changes[j]).old_port != port) ==> change_of_port(
            changes,
            port as nat,
            0,
        ) == Some(changes[i]),
{
    lemma_moved_count(changes, port);
    if 0 <= i < changes.len() && changes[i].old_port == port && (forall|j: int|
        0 <= j < i ==> (#[trigger] changes[j]).old_port != port) {
        lemma_change_of(changes, port, 0, i);
    }
}

proof fn lemma_moved_count(changes: Seq<PortChangeView>, port: u16)
    ensures
        moved_count(changes, port) == changes.filter(|c: PortChangeView| c.old_port == port).len(),
    decreases changes.len(),
{
    reveal(Seq::filter);
    if changes.len() > 0 {
        lemma_moved_count(changes.drop_last(), port);
    }
}

proof fn lemma_change_of(changes: Seq<PortChangeView>, port: u16, from: int, i: int)
    requires
        0 <= from <= i < changes.len(),
        changes[i].old_port == port,
        forall|j: int| from <= j < i ==> (#[trigger] changes[j]).old_port != port,
    ensures
        change_of_port(changes, port as nat, from) == Some(changes[i]),
    decreases i - from,
{
    if from < i {
        assert(changes[from].old_port != port);
        lemma_change_of(changes, port, from + 1, i);
    }
}

/// The first port that was found available is taken.
pub proof fn law_first_available_port(attempts: Seq<(u16, bool)>, i: int)
    requires
        0 <= i <= attempts.len(),
        forall|j: int| 0 <= j < i ==> !(#[trigger] attempts[j]).1,
    ensures
        i < attempts.len() && attempts[i].1 ==> first_available(attempts, 0) == Some(attempts[i].0),
        i == attempts.len() ==> first_available(attempts, 0) is None,
{
    lemma_available(attempts, 0, i);
}

proof fn lemma_available(attempts: Seq<(u16, bool)>, from: int, i: int)
    requires
        0 <= from <= i <= attempts.len(),
        forall|j: int| from <= j < i ==> !(#[trigger] attempts[j]).1,
    ensures
        first_available(attempts, from) == first_available(attempts, i),
    decreases i - from,
{
    if from < i {
        assert(!attempts[from].1);
        lemma_available(attempts, from + 1, i);
    }
}

/// The port of a name.
pub open spec fn has_port(list: Seq<(Seq<char>, u16)>, name: Seq<char>, port: u16) -> bool {
    exists|i: int| 0 <= i < list.len() && #[trigger] list[i] == (name, port)
}

proof fn lemma_with_port(list: Seq<(Seq<char>, u16)>, name: Seq<char>, port: u16)
    requires
        forall|i: int, j: int|
            0 <= i < j < list.len() ==> (#[trigger] list[i]).0 != (#[trigger] list[j]).0,
    ensures
        ({
            let out = with_port(list, name, port);
            &&& forall|i: int, j: int|
                0 <= i < j < out.len() ==> (#[trigger] out[i]).0 != (#[trigger] out[j]).0
            &&& has_port(out, name, port)
            &&& forall|other: Seq<char>, p: u16|
                other != name ==> (#[trigger] has_port(out, other, p) <==> has_port(list, other, p))
        }),
    decreases list.len(),
{
    let out = with_port(list, name, port);
    if list.len() == 0 {
        assert(out[0] == (name, port));
        assert forall|other: Seq<char>, p: u16| other != name implies (#[trigger] has_port(
            out,
            other,
            p,
        ) <==> has_port(list, other, p)) by {}
    } else if list[0].0 == name {
        assert(out[0] == (name, port));
        assert forall|other: Seq<char>, p: u16| other != name implies (#[trigger] has_port(
            out,
            other,
            p,
        ) <==> has_port(list, other, p)) by {
            if has_port(out, other, p) {
                let i = choose|i: int| 0 <= i < out.len() && #[trigger] out[i] == (other, p);
                assert(list[i] == (other, p));
            }
            if has_port(list, other, p) {
                let i = choose|i: int| 0 <= i < list.len() && #[trigger] list[i] == (other, p);
                assert(out[i] == (other, p));
            }
        }
    } else {
        let rest = list.skip(1);
        assert forall|i: int, j: int| 0 <= i < j < rest.len() implies (#[trigger] rest[i]).0 != (
        #[trigger] rest[j]).0 by {
            assert(rest[i] == list[i + 1] && rest[j] == list[j + 1]);
        }
        lemma_with_port(rest, name, port);
        let tail = with_port(rest, name, port);
        assert(out == seq![list[0]] + tail);
        assert forall|i: int| 0 <= i < tail.len() implies #[trigger] tail[i] == out[i + 1] by {}
        assert forall|i: int| 0 <= i < tail.len() implies (#[trigger] tail[i]).0 != list[0].0 by {
            if tail[i].0 != name {
                assert(has_port(tail, tail[i].0, tail[i].1));
                let k = choose|k: int|
                    0 <= k < rest.len() && #[trigger] rest[k] == (tail[i].0, tail[i].1);
                assert(list[k + 1] == rest[k]);
            }
        }
        assert forall|i: int, j: int| 0 <= i < j < out.len() implies (#[trigger] out[i]).0 != (
        #[trigger] out[j]).0 by {
            assert(out[j] == tail[j - 1]);
            if i > 0 {
                assert(out[i] == tail[i - 1]);
            }
        }
        let k = choose|k: int| 0 <= k < tail.len() && #[trigger] tail[k] == (name, port);
        assert(out[k + 1] == (name, port));
        assert forall|other: Seq<char>, p: u16| other != name implies (#[trigger] has_port(
            out,
            other,
            p,
        ) <==> has_port(list, other, p)) by {
            if has_port(out, other, p) {
                let i = choose|i: int| 0 <= i < out.len() && #[trigger] out[i] == (other, p);
                if i == 0 {
                    assert(list[0] == (other, p));
                } else {
                    assert(tail[i - 1] == (other, p));
                    assert(has_port(tail, other, p));
                    let m = choose|m: int| 0 <= m < rest.len() && #[trigger] rest[m] == (other, p);
                    assert(list[m + 1] == (other, p));
                }
            }
            if has_port(list, other, p) {
                let i = choose|i: int| 0 <= i < list.len() && #[trigger] list[i] == (other, p);
                if i == 0 {
                    assert(out[0] == (other, p));
                } else {
                    assert(rest[i - 1] == (other, p));
                    assert(has_port(rest, other, p));
                    assert(has_port(tail, other, p));
                    let m = choose|m: int| 0 <= m < tail.len() && #[trigger] tail[m] == (other, p);
                    assert(out[m + 1] == (other, p));
                }
            }
        }
    }
}

/// No name is described twice. A further line that describes a port gives it to its name, whatever
/// the name had before, and leaves the ports of other names; any other line changes nothing.
pub proof fn law_later_descriptions_count(rows: Seq<Seq<char>>, row: Seq<char>)
    ensures
        ({
            let before = described_ports(rows);
            let after = described_ports(rows.push(row));
            &&& forall|i: int, j: int|
                0 <= i < j < after.len() ==> (#[trigger] after[i]).0 != (#[trigger] after[j]).0
            &&& described_port(row) is None ==> after == before
            &&& described_port(row) matches Some((name, port)) ==> has_port(after, name, port)
                && forall|other: Seq<char>, p: u16|
                other != name ==> (#[trigger] has_port(after, other, p) <==> has_port(
                    before,
                    other,
                    p,
                ))
        }),
{
    assert(rows.push(row).drop_last() =~= rows);
    assert(rows.push(row).last() == row);
    lemma_described_once(rows);
    match described_port(row) {
        Some((name, port)) => {
            lemma_with_port(described_ports(rows), name, port);
        },
        None => {},
    }
}

proof fn lemma_described_once(rows: Seq<Seq<char>>)
    ensures
        forall|i: int, j: int|
            0 <= i < j < described_ports(rows).len() ==> (#[trigger] described_ports(rows)[i]).0
                != (#[trigger] described_ports(rows)[j]).0,
    decreases rows.len(),
{
    if rows.len() > 0 {
        lemma_described_once(rows.drop_last());
        match described_port(rows.last()) {
            Some((name, port)) => {
                lemma_with_port(described_ports(rows.drop_last()), name, port);
            },
            None => {},
        }
    }
}

// ---------------------------------------------------------------------------------------------
// Instances
// ---------------------------------------------------------------------------------------------
/// Instances of one time keep their order where the newest are put first.
pub proof fn law_instances_of_one_time_keep_their_order(list: Seq<InstanceRecordView>, time: u64)
    ensures
        newest_first(list).filter(|i: InstanceRecordView| i.created_at == time) == list.filter(
            |i: InstanceRecordView| i.created_at == time,
        ),
    decreases list.len(),
{
    let of = |i: InstanceRecordView| i.created_at == time;
    reveal(Seq::filter);
    if list.len() > 0 {
        let rest = newest_first(list.drop_last());
        law_instances_of_one_time_keep_their_order(list.drop_last(), time);
        lemma_inserted_newest(rest, list.last(), time);
    }
    assert(newest_first(list).filter(of) =~= list.filter(of));
}

proof fn lemma_inserted_newest(list: Seq<InstanceRecordView>, x: InstanceRecordView, time: u64)
    ensures
        ({
            let of = |i: InstanceRecordView| i.created_at == time;
            insert_newest(list, x).filter(of) == (if x.created_at == time {
                list.filter(of).push(x)
            } else {
                list.filter(of)
            })
        }),
    decreases list.len(),
{
    let of = |i: InstanceRecordView| i.created_at == time;
    reveal(Seq::filter);
    if list.len() == 0 || list.last().created_at >= x.created_at {
        assert(list.push(x).drop_last() =~= list);
    } else {
        let rest = list.drop_last();
        lemma_inserted_newest(rest, x, time);
        let out = insert_newest(rest, x).push(list.last());
        assert(out.drop_last() =~= insert_newest(rest, x));
        if x.created_at == time {
            lemma_newer_not_of(list, x, time);
        }
    }
}

proof fn lemma_newer_not_of(list: Seq<InstanceRecordView>, x: InstanceRecordView, time: u64)
    requires
        list.len() > 0,
        x.created_at == time,
        list.last().created_at < x.created_at,
    ensures
        ({
            let of = |i: InstanceRecordView| i.created_at == time;
            list.filter(of) == list.drop_last().filter(of)
        }),
{
    reveal(Seq::filter);
}

/// An instance is found by its id, the first one where there were several; the file of its variables
/// is the one it names, or `.env` in its directory; and the example of its variables is that of the
/// first directory that has one.
pub proof fn law_instances_are_found(
    list: Seq<InstanceRecordView>,
    entries: Seq<EntryFacts>,
    separator: char,
    i: int,
)
    requires
        0 <= i,
    ensures
        i < list.len() && (forall|j: int| 0 <= j < i ==> (#[trigger] list[j]).id != list[i].id)
            ==> index_of_instance(list, list[i].id, 0) == Some(i),
        i < list.len() ==> env_file_of(list[i], separator) == (match list[i].env_path {
            Some(path) => path,
            None => join_path(separator, list[i].work_dir, ".env"@),
        }),
        i < entries.len() && entries[i].is_dir && entries[i].has_example && (forall|j: int|
            0 <= j < i ==> !((#[trigger] entries[j]).is_dir && entries[j].has_example))
            ==> example_below(entries, 0, separator) == Some(
            join_path(separator, entries[i].path@, ".env.example"@),
        ),
{
    if i < list.len() && (forall|j: int| 0 <= j < i ==> (#[trigger] list[j]).id != list[i].id) {
        lemma_instance(list, list[i].id, 0, i);
    }
    if i < entries.len() && entries[i].is_dir && entries[i].has_example && (forall|j: int|
        0 <= j < i ==> !((#[trigger] entries[j]).is_dir && entries[j].has_example)) {
        lemma_example(entries, separator, 0, i);
    }
}

proof fn lemma_instance(list: Seq<InstanceRecordView>, id: Seq<char>, from: int, i: int)
    requires
        0 <= from <= i < list.len(),
        list[i].id == id,
        forall|j: int| from <= j < i ==> (#[trigger] list[j]).id != id,
    ensures
        index_of_instance(list, id, from) == Some(i),
    decreases i - from,
{
    if from < i {
        assert(list[from].id != id);
        lemma_instance(list, id, from + 1, i);
    }
}

proof fn lemma_example(entries: Seq<EntryFacts>, separator: char, from: int, i: int)
    requires
        0 <= from <= i < entries.len(),
        entries[i].is_dir && entries[i].has_example,
        forall|j: int|
            from <= j < i ==> !((#[trigger] entries[j]).is_dir && entries[j].has_example),
    ensures
        example_below(entries, from, separator) == Some(
            join_path(separator, entries[i].path@, ".env.example"@),
        ),
    decreases i - from,
{
    if from < i {
        assert(!(entries[from].is_dir && entries[from].has_example));
        lemma_example(entries, separator, from + 1, i);
    }
}

/// Every line of what an instance tells of itself is read, one after the other.
pub proof fn law_every_line_is_read(
    instance: InstanceRecordView,
    list: Seq<Seq<char>>,
    line: Seq<char>,
)
    ensures
        with_info_lines(instance, Seq::<Seq<char>>::empty()) == instance,
        with_info_lines(instance, list.push(line)) == with_info_line(
            with_info_lines(instance, list),
            line,
            unicode_lower(line),
        ),
{
    assert(list.push(line).drop_last() =~= list);
}

/// An instance whose variables were edited has to be restarted and checked exactly where it was
/// deployed. One that was not is ready to be installed where it has variables, and is being configured
/// where it has none.
pub proof fn law_edited_instances(instance: InstanceRecordView, deployed: bool, now: u64)
    ensures
        ({
            let out = edited_record(instance, deployed, now);
            &&& out.needs_doctor == deployed
            &&& deployed ==> out.status == "needs-restart"@
            &&& !deployed && instance.env_path is Some ==> out.status == "ready-to-install"@
            &&& !deployed && instance.env_path is None ==> out.status == "configuring"@
            &&& out.updated_at == now
            &&& out == (InstanceRecordView {
                status: out.status,
                needs_doctor: out.needs_doctor,
                updated_at: now,
                ..instance
            })
        }),
{
}

/// What the steps make of an instance: it is being installed or restarted from the second check of
/// the ports on, is starting once its process runs, forgets its process where it is stopped, and needs
/// no check once it runs. A failed restart of an edited instance still calls for one. Nothing else
/// changes, and no other step changes anything.
pub proof fn law_records_of_steps(flow: Flow, step: Step, instance: InstanceRecordView, now: u64)
    ensures
        ({
            let out = record_at(flow, step, instance, now);
            let failed = record_after_failure(flow, instance, now);
            &&& step is Enter && flow is Install ==> out == (InstanceRecordView {
                status: "installing"@,
                updated_at: now,
                ..instance
            })
            &&& step is Enter && flow is Restart ==> out == (InstanceRecordView {
                status: "restarting"@,
                updated_at: now,
                ..instance
            })
            &&& step is Started ==> out == (InstanceRecordView {
                status: "starting"@,
                updated_at: now,
                ..instance
            })
            &&& step is Stop ==> out == (InstanceRecordView { pid: None, ..instance })
            &&& step is Running ==> out == (InstanceRecordView {
                status: "running"@,
                needs_doctor: false,
                updated_at: now,
                ..instance
            })
            &&& !(step is Enter || step is Started || step is Stop || step is Running) ==> out
                == instance
            &&& flow is Restart && instance.needs_doctor ==> failed == (InstanceRecordView {
                status: "needs-restart"@,
                updated_at: now,
                ..instance
            })
            &&& flow is Install || !instance.needs_doctor ==> failed == (InstanceRecordView {
                status: "failed"@,
                updated_at: now,
                ..instance
            })
        }),
{
}

/// What is said of a deleted instance names it, its id and its directory.
pub proof fn law_deletions_are_told(instance: InstanceRecordView, stopped: nat)
    ensures
        contains(deletion_message(instance, stopped), instance.name),
        contains(deletion_message(instance, stopped), instance.id),
        contains(deletion_message(instance, stopped), instance.work_dir),
        contains(deletion_message(instance, stopped), decimal(stopped)),
{
    let said = deletion_message(instance, stopped);
    let a = "Instance deletion completed\nInstance name: "@;
    let b = "\nInstance ID: "@;
    let c = "\nWorking directory: "@;
    let d = "\nProcesses stopped: "@;
    let e = "\nInstance record: deleted"@;
    let n = decimal(stopped);
    lemma_inside(a, instance.name, b + instance.id + c + instance.work_dir + d + n + e);
    assert(said =~= a + instance.name + (b + instance.id + c + instance.work_dir + d + n + e));
    lemma_inside(a + instance.name + b, instance.id, c + instance.work_dir + d + n + e);
    assert(said =~= a + instance.name + b + instance.id + (c + instance.work_dir + d + n + e));
    lemma_inside(a + instance.name + b + instance.id + c, instance.work_dir, d + n + e);
    assert(said =~= a + instance.name + b + instance.id + c + instance.work_dir + (d + n + e));
    lemma_inside(a + instance.name + b + instance.id + c + instance.work_dir + d, n, e);
}

/// Why a change of the storage failed ends with the error of the step that failed.
pub proof fn law_failed_changes_are_told(step: SwitchStep, error: Seq<char>)
    ensures
        ends_with(switch_fault(step, error), error),
{
    let said = switch_fault(step, error);
    assert(said.skip(said.len() - error.len()) =~= error);
}

// ---------------------------------------------------------------------------------------------
// The store
// ---------------------------------------------------------------------------------------------
/// A start takes the configuration of its file with a name for the database; without a file that can
/// be read, a first one with a storage on this machine that is not set up. An error is told exactly
/// where the file is there and cannot be used.
pub proof fn law_configuration_of_a_start(file: ConfigFile)
    ensures
        file is Parsed ==> config_of_file(file).mode == file->Parsed_0@.mode && config_of_file(
            file,
        ).path == file->Parsed_0@.path && config_of_file(file).setup_completed
            == file->Parsed_0@.setup_completed,
        !(file is Parsed) ==> config_of_file(file).mode == "seekdb_embedded"@ && !config_of_file(
            file,
        ).setup_completed && config_of_file(file).runtime_log_retention_days == 7,
        trim(config_of_file(file).database).len() > 0,
        config_file_error(file) is Some <==> file is Malformed || file is Unreadable,
        file matches ConfigFile::Malformed(error) ==> ends_with(
            config_file_error(file)->0,
            error@,
        ),
        file matches ConfigFile::Unreadable(error) ==> ends_with(
            config_file_error(file)->0,
            error@,
        ),
{
    reveal_strlit("agentseek_desktop");
    let name = "agentseek_desktop"@;
    assert(name[0] == 'a');
    crate::search::lemma_trim_empty(name);
    match file {
        ConfigFile::Malformed(error) => {
            let said = config_file_error(file)->0;
            assert(said.skip(said.len() - error@.len()) =~= error@);
        },
        ConfigFile::Unreadable(error) => {
            let said = config_file_error(file)->0;
            assert(said.skip(said.len() - error@.len()) =~= error@);
        },
        _ => {},
    }
}

/// Repairing a store of an earlier release keeps its instances in their order and its vault. An
/// instance that asked for a restart too early does not any more, and each entry of the log that stays
/// is one of those that were there, under its category and with a number.
pub proof fn law_repaired_stores(data: AppStoreView, days: u32, now: u64, i: int)
    ensures
        ({
            let out = migrated(data, days, now);
            &&& out.vault == data.vault
            &&& out.instances.len() == data.instances.len()
            &&& 0 <= i < data.instances.len() ==> out.instances[i].id == data.instances[i].id
                && out.instances[i] == without_early_restart(
                data.instances[i],
                deployed_by_log(data.logs, data.instances[i].id),
                now,
            )
            &&& 0 <= i < out.logs.len() ==> exists|k: int|
                0 <= k < data.logs.len() && out.logs[i] == (LogEntryView {
                    sequence: k as u64,
                    ..refiled(#[trigger] data.logs[k])
                })
        }),
{
    let out = migrated(data, days, now);
    let filed = data.logs.map_values(|l: LogEntryView| refiled(l));
    let list = numbered(filed);
    let logs = sorted_logs(list);
    if 0 <= i < out.logs.len() {
        law_prune_keeps_nothing_expired(logs, instance_ids(out.instances), days, now, i);
        assert(logs.contains(out.logs[i]));
        law_sorted_logs(list);
        logs.to_multiset_ensures();
        list.to_multiset_ensures();
        assert(logs.to_multiset().count(out.logs[i]) > 0);
        assert(list.to_multiset().count(out.logs[i]) > 0);
        assert(list.contains(out.logs[i]));
        let k = choose|k: int| 0 <= k < list.len() && list[k] == out.logs[i];
        assert(filed[k] == refiled(data.logs[k]));
        assert(out.logs[i] == (LogEntryView { sequence: k as u64, ..refiled(data.logs[k]) }));
    }
}

/// Repairing a store of an earlier release loses no entry but those that are runtime entries or of
/// instances that are gone, where the entries have different ids.
pub proof fn law_repaired_stores_keep_their_entries(
    data: AppStoreView,
    days: u32,
    now: u64,
    k: int,
)
    requires
        0 <= k < data.logs.len(),
        forall|a: int, b: int|
            0 <= a < b < data.logs.len() ==> (#[trigger] data.logs[a]).id != (
            #[trigger] data.logs[b]).id,
        !expendable(
            LogEntryView { sequence: k as u64, ..refiled(data.logs[k]) },
            instance_ids(migrated(data, days, now).instances),
        ),
    ensures
        migrated(data, days, now).logs.contains(
            LogEntryView { sequence: k as u64, ..refiled(data.logs[k]) },
        ),
{
    let out = migrated(data, days, now);
    let filed = data.logs.map_values(|l: LogEntryView| refiled(l));
    let list = numbered(filed);
    let logs = sorted_logs(list);
    let kept = LogEntryView { sequence: k as u64, ..refiled(data.logs[k]) };
    law_sorted_logs(list);
    logs.to_multiset_ensures();
    list.to_multiset_ensures();
    assert(filed[k] == refiled(data.logs[k]));
    assert(list[k] == kept);
    assert(list.contains(kept));
    assert(list.to_multiset().count(kept) > 0);
    assert(logs.to_multiset().count(kept) > 0);
    assert(logs.contains(kept));
    let m = choose|m: int| 0 <= m < logs.len() && logs[m] == kept;
    assert forall|a: int, b: int| 0 <= a < b < logs.len() implies (#[trigger] logs[a]).id != (
    #[trigger] logs[b]).id by {
        lemma_ids_differ(data.logs, logs, list, a, b);
    }
    law_prune_keeps_lifecycle_entries(logs, instance_ids(out.instances), days, now, m);
}

proof fn lemma_ids_differ(
    raw: Seq<LogEntryView>,
    logs: Seq<LogEntryView>,
    list: Seq<LogEntryView>,
    a: int,
    b: int,
)
    requires
        list == numbered(raw.map_values(|l: LogEntryView| refiled(l))),
        logs.to_multiset() == list.to_multiset(),
        forall|x: int, y: int|
            0 <= x < y < raw.len() ==> (#[trigger] raw[x]).id != (#[trigger] raw[y]).id,
        0 <= a < b < logs.len(),
    ensures
        logs[a].id != logs[b].id,
{
    broadcast use vstd::seq_lib::group_to_multiset_ensures;

    logs.to_multiset_ensures();
    list.to_multiset_ensures();
    let filed = raw.map_values(|l: LogEntryView| refiled(l));
    assert forall|x: int| 0 <= x < list.len() implies (#[trigger] list[x]).id == raw[x].id by {
        assert(filed[x] == refiled(raw[x]));
    }
    assert(list.no_duplicates()) by {
        assert forall|x: int, y: int| 0 <= x < list.len() && 0 <= y < list.len() && x != y implies list[x]
            != list[y] by {
            assert(list[x].id == raw[x].id && list[y].id == raw[y].id);
        }
    }
    list.lemma_multiset_has_no_duplicates();
    logs.lemma_multiset_has_no_duplicates_conv();
    assert(logs.contains(logs[a]) && logs.contains(logs[b]));
    assert(logs.to_multiset().count(logs[a]) > 0 && logs.to_multiset().count(logs[b]) > 0);
    assert(list.to_multiset().count(logs[a]) > 0 && list.to_multiset().count(logs[b]) > 0);
    assert(list.contains(logs[a]) && list.contains(logs[b]));
    let x = choose|x: int| 0 <= x < list.len() && list[x] == logs[a];
    let y = choose|y: int| 0 <= y < list.len() && list[y] == logs[b];
    assert(logs[a] != logs[b]);
    assert(list[x].id == raw[x].id && list[y].id == raw[y].id);
}

} // verus!
