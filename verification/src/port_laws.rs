//! What holds of ports that were assigned.
use vstd::prelude::*;

use crate::commands::first_port;
use crate::deploy::{
    bare_ports, change_of_port, new_ports_run, new_ports_start, port_key, service_run,
    url_port_or_zero, wanted_port,
};
use crate::env::EnvVariableView;
use crate::number::{all_digits, decimal, lemma_decimal_value, lemma_parse_decimal, unsigned_digits};
use crate::ports::{
    assign, describe_run, follow_changes, local_port_key, local_url, next_spare, port_run,
    port_value, resolved_conflicts, with_moved_port, with_named_port, with_port, DescribeRun,
    PortChangeView,
};
use crate::search::{
    contains, find, lemma_find, lemma_trim_end_spaces, lemma_trim_start_spaces, starts_with, trim,
    trim_end, trim_start,
};
use crate::split::replace_all;
use crate::text::{ascii_upper, is_digit, is_space};
use crate::urls::around_port;

verus! {

// ---------------------------------------------------------------------------------------------
// One port
// ---------------------------------------------------------------------------------------------
/// A port that is available and that nobody else holds is kept.
pub proof fn law_available_port_is_kept(wanted: u16, free: Seq<u16>, taken: Seq<u16>, spare: Seq<u16>)
    requires
        wanted > 0,
        free.contains(wanted),
        !taken.contains(wanted),
    ensures
        assign(wanted, free, taken, spare) is Some,
        assign(wanted, free, taken, spare)->0.port == wanted,
        assign(wanted, free, taken, spare)->0.spare == spare,
{
}

pub proof fn lemma_next_spare(spare: Seq<u16>, taken: Seq<u16>)
    ensures
        next_spare(spare, taken) matches Some((port, rest)) ==> spare.contains(port)
            && !taken.contains(port) && forall|p: u16| rest.contains(p) ==> spare.contains(p),
    decreases spare.len(),
{
    if spare.len() > 0 {
        assert(spare.contains(spare[0]));
        assert forall|p: u16| spare.skip(1).contains(p) implies spare.contains(p) by {
            let k = choose|k: int| 0 <= k < spare.skip(1).len() && spare.skip(1)[k] == p;
            assert(spare[k + 1] == p);
        }
        if taken.contains(spare[0]) {
            lemma_next_spare(spare.skip(1), taken);
        }
    }
}

/// A port that is assigned is above zero and available, or was allocated, and nobody held it before.
pub proof fn law_assigned_port_is_new(wanted: u16, free: Seq<u16>, taken: Seq<u16>, spare: Seq<u16>)
    ensures
        assign(wanted, free, taken, spare) matches Some(a) ==> {
            &&& !taken.contains(a.port)
            &&& a.port > 0 && free.contains(a.port) || spare.contains(a.port)
            &&& a.taken == taken.push(a.port)
            &&& forall|p: u16| a.spare.contains(p) ==> spare.contains(p)
        },
{
    lemma_next_spare(spare, taken);
}

// ---------------------------------------------------------------------------------------------
// Values that hold a port
// ---------------------------------------------------------------------------------------------
/// A colon stands in the text.
pub open spec fn has_colon(s: Seq<char>) -> bool {
    exists|k: int| 0 <= k < s.len() && s[k] == ':'
}

/// A value with a colon holds no port.
pub proof fn lemma_colon_is_no_port(s: Seq<char>)
    requires
        has_colon(s),
    ensures
        port_value(s) is None,
{
    let k = choose|k: int| 0 <= k < s.len() && s[k] == ':';
    let a = trim_start(s);
    let t = trim_end(a);
    lemma_trim_start_spaces(s);
    lemma_trim_end_spaces(a);
    let n = s.len() - a.len();
    assert(!is_space(':'));
    assert(k >= n);
    assert(a[k - n] == ':');
    assert(k - n < t.len());
    assert(t[k - n] == ':');
    let digits = unsigned_digits(t);
    if t[0] == '+' {
        assert(digits[k - n - 1] == ':');
    } else {
        assert(digits[k - n] == ':');
    }
    assert(!is_digit(':'));
    assert(!all_digits(digits));
}

pub proof fn lemma_decimal_is_port(port: u16)
    ensures
        port_value(decimal(port as nat)) == Some(port as nat),
{
    lemma_decimal_value(port as nat);
    let d = decimal(port as nat);
    assert(is_digit(d[0]));
    assert(is_digit(d[d.len() - 1]));
    assert(!is_space(d[0]));
    assert(!is_space(d.last()));
    assert(trim(d) == d);
    lemma_parse_decimal(port as nat, 65535);
}

/// A value stays as it is, or it holds a colon before and after.
pub open spec fn stays_or_colon(before: Seq<char>, after: Seq<char>) -> bool {
    after == before || (has_colon(before) && has_colon(after))
}

proof fn lemma_replace_with_colon(s: Seq<char>, host: Seq<char>, from: Seq<char>, to: Seq<char>)
    ensures
        stays_or_colon(s, replace_all(s, host + (":"@ + from), host + (":"@ + to))),
{
    reveal_strlit(":");
    let old_text = host + (":"@ + from);
    let new_text = host + (":"@ + to);
    let r = replace_all(s, old_text, new_text);
    lemma_find(s, old_text);
    match find(s, old_text) {
        Some(i) => {
            assert(s.subrange(i, i + old_text.len())[host.len() as int] == ':');
            assert(s[i + host.len()] == ':');
            assert(r == s.take(i) + new_text + replace_all(
                s.skip(i + old_text.len()),
                old_text,
                new_text,
            ));
            assert(r[i + host.len()] == ':');
        },
        None => {},
    }
}

pub proof fn lemma_moved_port_with_colon(value: Seq<char>, old_port: u16, new_port: u16)
    ensures
        stays_or_colon(value, with_moved_port(value, old_port, new_port)),
{
    let old_text = decimal(old_port as nat);
    let new_text = decimal(new_port as nat);
    let from = ":"@ + old_text;
    let to = ":"@ + new_text;
    let v1 = replace_all(value, "127.0.0.1"@ + from, "127.0.0.1"@ + to);
    let v2 = replace_all(v1, "localhost"@ + from, "localhost"@ + to);
    let v3 = replace_all(v2, "0.0.0.0"@ + from, "0.0.0.0"@ + to);
    lemma_replace_with_colon(value, "127.0.0.1"@, old_text, new_text);
    lemma_replace_with_colon(v1, "localhost"@, old_text, new_text);
    lemma_replace_with_colon(v2, "0.0.0.0"@, old_text, new_text);
    lemma_replace_with_colon(v3, "[::1]"@, old_text, new_text);
}

pub proof fn lemma_local_url_has_colon(value: Seq<char>)
    requires
        local_url(value),
    ensures
        has_colon(value),
{
    reveal_strlit("http://127.0.0.1");
    reveal_strlit("https://127.0.0.1");
    reveal_strlit("http://localhost");
    reveal_strlit("https://localhost");
    reveal_strlit("http://0.0.0.0");
    reveal_strlit("https://0.0.0.0");
    reveal_strlit("http://[::1]");
    reveal_strlit("https://[::1]");
    if starts_with(value, "http://127.0.0.1"@) {
        assert(value.subrange(0, "http://127.0.0.1"@.len() as int)[4] == ':');
        assert(value[4] == ':');
    } else if starts_with(value, "https://127.0.0.1"@) {
        assert(value.subrange(0, "https://127.0.0.1"@.len() as int)[5] == ':');
        assert(value[5] == ':');
    } else if starts_with(value, "http://localhost"@) {
        assert(value.subrange(0, "http://localhost"@.len() as int)[4] == ':');
        assert(value[4] == ':');
    } else if starts_with(value, "https://localhost"@) {
        assert(value.subrange(0, "https://localhost"@.len() as int)[5] == ':');
        assert(value[5] == ':');
    } else if starts_with(value, "http://0.0.0.0"@) {
        assert(value.subrange(0, "http://0.0.0.0"@.len() as int)[4] == ':');
        assert(value[4] == ':');
    } else if starts_with(value, "https://0.0.0.0"@) {
        assert(value.subrange(0, "https://0.0.0.0"@.len() as int)[5] == ':');
        assert(value[5] == ':');
    } else if starts_with(value, "http://[::1]"@) {
        assert(value.subrange(0, "http://[::1]"@.len() as int)[4] == ':');
        assert(value[4] == ':');
    } else {
        assert(value.subrange(0, "https://[::1]"@.len() as int)[5] == ':');
        assert(value[5] == ':');
    }
}

pub proof fn lemma_named_port_with_colon(entry: EnvVariableView, ports: Seq<(Seq<char>, u16)>)
    ensures
        stays_or_colon(entry.value, with_named_port(entry, ports).value),
        with_named_port(entry, ports).key == entry.key,
        with_named_port(entry, ports).comment == entry.comment,
        with_named_port(entry, ports).source == entry.source,
{
    reveal_strlit(":");
    if local_url(entry.value) {
        lemma_local_url_has_colon(entry.value);
        let value = with_named_port(entry, ports).value;
        match around_port(entry.value) {
            Some((before, behind)) => {
                if value != entry.value {
                    assert(value[before.len() as int] == ':');
                }
            },
            None => {},
        }
    }
}

pub proof fn lemma_followed_with_colon(entry: EnvVariableView, changes: Seq<PortChangeView>, n: nat)
    ensures
        stays_or_colon(entry.value, follow_changes(entry, changes, n).value),
        follow_changes(entry, changes, n).key == entry.key,
        follow_changes(entry, changes, n).comment == entry.comment,
        follow_changes(entry, changes, n).source == entry.source,
        !contains(ascii_upper(entry.key), "URL"@) ==> follow_changes(entry, changes, n) == entry,
    decreases n,
{
    if n > 0 {
        lemma_followed_with_colon(entry, changes, (n - 1) as nat);
        let e = follow_changes(entry, changes, (n - 1) as nat);
        lemma_moved_port_with_colon(e.value, changes[n - 1].old_port, changes[n - 1].new_port);
    }
}

// ---------------------------------------------------------------------------------------------
// Conflicts between variables
// ---------------------------------------------------------------------------------------------
/// The variable holds the port of a local service.
pub open spec fn holds_local_port(entry: EnvVariableView) -> bool {
    local_port_key(entry.key) && port_value(entry.value) is Some
}

/// The local ports of a list differ from each other.
pub open spec fn local_ports_differ(entries: Seq<EnvVariableView>) -> bool {
    forall|i: int, j: int|
        0 <= i < j < entries.len() && holds_local_port(#[trigger] entries[i]) && holds_local_port(
            #[trigger] entries[j],
        ) ==> port_value(entries[i].value) != port_value(entries[j].value)
}

pub proof fn lemma_port_run(entries: Seq<EnvVariableView>, free: Seq<u16>, spare: Seq<u16>)
    requires
        port_run(entries, free, spare) is Some,
    ensures
        ({
            let run = port_run(entries, free, spare)->0;
            &&& run.entries.len() == entries.len()
            &&& local_ports_differ(run.entries)
            &&& forall|i: int|
                0 <= i < entries.len() ==> {
                    let e = #[trigger] run.entries[i];
                    &&& e.key == entries[i].key
                    &&& e.comment == entries[i].comment
                    &&& e.source == entries[i].source
                    &&& !holds_local_port(entries[i]) ==> e == entries[i]
                    &&& holds_local_port(e) ==> {
                        let p = port_value(e.value)->0 as u16;
                        run.taken.contains(p) && (p > 0 && free.contains(p) || spare.contains(p))
                            && port_value(e.value) == Some(p as nat)
                    }
                }
            &&& forall|p: u16| run.spare.contains(p) ==> spare.contains(p)
        }),
    decreases entries.len(),
{
    if entries.len() > 0 {
        let first = entries.drop_last();
        let entry = entries.last();
        lemma_port_run(first, free, spare);
        let before = port_run(first, free, spare)->0;
        let run = port_run(entries, free, spare)->0;
        assert(run.entries.drop_last() =~= before.entries);
        let last = run.entries.last();
        if holds_local_port(entry) {
            let wanted = port_value(entry.value)->0 as u16;
            law_assigned_port_is_new(wanted, free, before.taken, before.spare);
            let a = assign(wanted, free, before.taken, before.spare)->0;
            assert(a.taken.last() == a.port);
            assert(a.taken.contains(a.port));
            lemma_decimal_is_port(a.port);
            if wanted > 0 && free.contains(wanted) && !before.taken.contains(wanted) {
                assert(last == entry);
                assert(port_value(entry.value) == Some(wanted as nat));
            } else {
                assert(last.value == decimal(a.port as nat));
            }
            assert(port_value(last.value) == Some(a.port as nat));
            assert forall|p: u16| before.taken.contains(p) implies run.taken.contains(p) by {
                let k = choose|k: int| 0 <= k < before.taken.len() && before.taken[k] == p;
                assert(run.taken[k] == p);
            }
            if wanted > 0 && free.contains(wanted) && !before.taken.contains(wanted) {
                assert(run.spare == before.spare);
            }
        }
        assert forall|i: int| 0 <= i < entries.len() implies {
            let e = #[trigger] run.entries[i];
            &&& e.key == entries[i].key
            &&& e.comment == entries[i].comment
            &&& e.source == entries[i].source
            &&& !holds_local_port(entries[i]) ==> e == entries[i]
            &&& holds_local_port(e) ==> {
                let p = port_value(e.value)->0 as u16;
                run.taken.contains(p) && (p > 0 && free.contains(p) || spare.contains(p))
                    && port_value(e.value) == Some(p as nat)
            }
        } by {
            if i < entries.len() - 1 {
                assert(run.entries[i] == before.entries[i]);
                assert(entries[i] == first[i]);
            }
        }
        assert forall|i: int, j: int|
            0 <= i < j < run.entries.len() && holds_local_port(#[trigger] run.entries[i])
                && holds_local_port(#[trigger] run.entries[j]) implies port_value(
            run.entries[i].value,
        ) != port_value(run.entries[j].value) by {
            assert(run.entries[i] == before.entries[i]);
            if j < entries.len() - 1 {
                assert(run.entries[j] == before.entries[j]);
            } else {
                assert(before.taken.contains(port_value(before.entries[i].value)->0 as u16));
                assert(holds_local_port(entry));
            }
        }
    }
}

/// Resolving conflicts changes values only. Variables that hold neither the port of a local service
/// nor a URL stay as they are: those of databases and other outside services among them.
pub proof fn law_other_variables_stay(entries: Seq<EnvVariableView>, free: Seq<u16>, spare: Seq<u16>)
    ensures
        resolved_conflicts(entries, free, spare) matches Some((out, _)) ==> {
            &&& out.len() == entries.len()
            &&& forall|i: int|
                0 <= i < out.len() ==> {
                    let e = #[trigger] out[i];
                    &&& e.key == entries[i].key
                    &&& e.comment == entries[i].comment
                    &&& e.source == entries[i].source
                    &&& (!local_port_key(e.key) && !contains(ascii_upper(e.key), "URL"@)) ==> e
                        == entries[i]
                }
        },
{
    if port_run(entries, free, spare) is Some {
        lemma_port_run(entries, free, spare);
        let run = port_run(entries, free, spare)->0;
        let followed = run.entries.map_values(
            |e: EnvVariableView| follow_changes(e, run.changes, run.changes.len()),
        );
        let ports = crate::ports::plain_ports(followed);
        let out = followed.map_values(|e: EnvVariableView| with_named_port(e, ports));
        assert forall|i: int| 0 <= i < out.len() implies {
            let e = #[trigger] out[i];
            &&& e.key == entries[i].key
            &&& e.comment == entries[i].comment
            &&& e.source == entries[i].source
            &&& (!local_port_key(e.key) && !contains(ascii_upper(e.key), "URL"@)) ==> e
                == entries[i]
        } by {
            assert(run.entries[i].key == entries[i].key);
            lemma_followed_with_colon(run.entries[i], run.changes, run.changes.len());
            lemma_named_port_with_colon(followed[i], ports);
        }
    }
}

/// Once conflicts are resolved, no two local services share a port, and each has one that is above
/// zero and available, or that was allocated.
pub proof fn law_local_ports_are_apart(entries: Seq<EnvVariableView>, free: Seq<u16>, spare: Seq<u16>)
    ensures
        resolved_conflicts(entries, free, spare) matches Some((out, _)) ==> {
            &&& local_ports_differ(out)
            &&& forall|i: int|
                0 <= i < out.len() && holds_local_port(#[trigger] out[i]) ==> {
                    let p = port_value(out[i].value)->0 as u16;
                    p > 0 && free.contains(p) || spare.contains(p)
                }
        },
{
    if port_run(entries, free, spare) is Some {
        lemma_port_run(entries, free, spare);
        let run = port_run(entries, free, spare)->0;
        let followed = run.entries.map_values(
            |e: EnvVariableView| follow_changes(e, run.changes, run.changes.len()),
        );
        let ports = crate::ports::plain_ports(followed);
        let out = followed.map_values(|e: EnvVariableView| with_named_port(e, ports));
        assert forall|i: int|
            0 <= i < out.len() && holds_local_port(#[trigger] out[i]) implies out[i].value
            == run.entries[i].value && out[i].key == run.entries[i].key by {
            lemma_followed_with_colon(run.entries[i], run.changes, run.changes.len());
            lemma_named_port_with_colon(followed[i], ports);
            if has_colon(out[i].value) {
                lemma_colon_is_no_port(out[i].value);
            }
        }
        assert forall|i: int|
            0 <= i < out.len() && holds_local_port(#[trigger] out[i]) implies ({
            let p = port_value(out[i].value)->0 as u16;
            p > 0 && free.contains(p) || spare.contains(p)
        }) by {
            assert(holds_local_port(run.entries[i]));
        }
        assert forall|i: int, j: int|
            0 <= i < j < out.len() && holds_local_port(#[trigger] out[i]) && holds_local_port(
                #[trigger] out[j],
            ) implies port_value(out[i].value) != port_value(out[j].value) by {
            assert(holds_local_port(run.entries[i]));
            assert(holds_local_port(run.entries[j]));
        }
    }
}

// ---------------------------------------------------------------------------------------------
// Ports of the services of an instance
// ---------------------------------------------------------------------------------------------
/// The services of an instance get ports that differ from each other, that no other instance holds,
/// and that are above zero and available, or were allocated.
pub proof fn law_service_ports_are_apart(
    services: Seq<(Seq<char>, Seq<char>)>,
    env: Seq<EnvVariableView>,
    reserved: Seq<u16>,
    free: Seq<u16>,
    spare: Seq<u16>,
)
    ensures
        service_run(services, env, reserved, free, spare) matches Some(run) ==> {
            &&& forall|i: int, j: int|
                0 <= i < j < run.ports.len() ==> (#[trigger] run.ports[i]).1 != (
                #[trigger] run.ports[j]).1
            &&& forall|i: int|
                0 <= i < run.ports.len() ==> {
                    let p = (#[trigger] run.ports[i]).1;
                    !reserved.contains(p) && (p > 0 && free.contains(p) || spare.contains(p))
                        && run.taken.contains(p)
                }
            &&& forall|p: u16| reserved.contains(p) ==> run.taken.contains(p)
            &&& forall|p: u16| run.spare.contains(p) ==> spare.contains(p)
        },
    decreases services.len(),
{
    if services.len() > 0 {
        let first = services.drop_last();
        law_service_ports_are_apart(first, env, reserved, free, spare);
        if service_run(services, env, reserved, free, spare) is Some {
            let before = service_run(first, env, reserved, free, spare)->0;
            let run = service_run(services, env, reserved, free, spare)->0;
            match wanted_port(services.last(), env) {
                None => {},
                Some(wanted) => {
                    law_assigned_port_is_new(wanted as u16, free, before.taken, before.spare);
                    let a = assign(wanted as u16, free, before.taken, before.spare)->0;
                    assert(run.ports.drop_last() =~= before.ports);
                    assert(a.taken.last() == a.port);
                    assert forall|p: u16| before.taken.contains(p) implies run.taken.contains(
                        p,
                    ) by {
                        let k = choose|k: int|
                            0 <= k < before.taken.len() && before.taken[k] == p;
                        assert(run.taken[k] == p);
                    }
                    assert forall|i: int| 0 <= i < run.ports.len() implies ({
                        let p = (#[trigger] run.ports[i]).1;
                        !reserved.contains(p) && (p > 0 && free.contains(p) || spare.contains(p))
                            && run.taken.contains(p)
                    }) by {
                        if i < run.ports.len() - 1 {
                            assert(run.ports[i] == before.ports[i]);
                        }
                    }
                    assert forall|i: int, j: int|
                        0 <= i < j < run.ports.len() implies (#[trigger] run.ports[i]).1 != (
                    #[trigger] run.ports[j]).1 by {
                        assert(run.ports[i] == before.ports[i]);
                        if j < run.ports.len() - 1 {
                            assert(run.ports[j] == before.ports[j]);
                        }
                    }
                },
            }
        }
    }
}

// ---------------------------------------------------------------------------------------------
// Ports of a new instance
// ---------------------------------------------------------------------------------------------
/// The ports under different names differ, and none of them is reserved.
pub open spec fn ports_apart(ports: Seq<(Seq<char>, u16)>, reserved: Seq<u16>) -> bool {
    &&& forall|i: int, j: int|
        0 <= i < j < ports.len() ==> (#[trigger] ports[i]).1 != (#[trigger] ports[j]).1
    &&& forall|i: int| 0 <= i < ports.len() ==> !reserved.contains((#[trigger] ports[i]).1)
}

/// A port is above zero and available, or was allocated.
pub open spec fn can_be_used(port: u16, free: Seq<u16>, spare: Seq<u16>) -> bool {
    port > 0 && free.contains(port) || spare.contains(port)
}

/// Where a port is put under a name: `k` is the place of the name, or the end of the list.
proof fn lemma_with_port(list: Seq<(Seq<char>, u16)>, name: Seq<char>, port: u16) -> (k: int)
    ensures
        0 <= k <= list.len(),
        forall|j: int| 0 <= j < k ==> (#[trigger] list[j]).0 != name,
        k < list.len() ==> list[k].0 == name && with_port(list, name, port) == list.update(
            k,
            (name, port),
        ),
        k == list.len() ==> with_port(list, name, port) == list.push((name, port)),
    decreases list.len(),
{
    if list.len() == 0 {
        assert(with_port(list, name, port) =~= list.push((name, port)));
        0
    } else if list[0].0 == name {
        0
    } else {
        let rest = list.skip(1);
        let m = lemma_with_port(rest, name, port);
        assert forall|j: int| 0 <= j < m + 1 implies (#[trigger] list[j]).0 != name by {
            if j > 0 {
                assert(rest[j - 1] == list[j]);
            }
        }
        if m < rest.len() {
            assert(rest[m] == list[m + 1]);
            assert(seq![list[0]] + rest.update(m, (name, port)) =~= list.update(
                m + 1,
                (name, port),
            ));
        } else {
            assert(seq![list[0]] + rest.push((name, port)) =~= list.push((name, port)));
        }
        m + 1
    }
}

/// Every port of a list is among those that are taken, and so is every reserved one.
spec fn all_taken(ports: Seq<(Seq<char>, u16)>, reserved: Seq<u16>, taken: Seq<u16>) -> bool {
    &&& forall|i: int| 0 <= i < ports.len() ==> taken.contains((#[trigger] ports[i]).1)
    &&& forall|p: u16| reserved.contains(p) ==> taken.contains(p)
}

/// A port that nobody holds keeps a list apart, under whatever name it is put.
proof fn lemma_put_apart(
    ports: Seq<(Seq<char>, u16)>,
    name: Seq<char>,
    port: u16,
    reserved: Seq<u16>,
    taken: Seq<u16>,
)
    requires
        ports_apart(ports, reserved),
        all_taken(ports, reserved, taken),
        !taken.contains(port),
    ensures
        ports_apart(with_port(ports, name, port), reserved),
        all_taken(with_port(ports, name, port), reserved, taken.push(port)),
{
    let k = lemma_with_port(ports, name, port);
    let out = with_port(ports, name, port);
    let held = taken.push(port);
    assert(held[taken.len() as int] == port);
    assert forall|p: u16| taken.contains(p) implies held.contains(p) by {
        let m = choose|m: int| 0 <= m < taken.len() && taken[m] == p;
        assert(held[m] == p);
    }
    assert forall|i: int| 0 <= i < out.len() implies !reserved.contains((#[trigger] out[i]).1)
        && held.contains(out[i].1) && (i != k ==> out[i] == ports[i] && out[i].1 != port) by {
        if i != k {
            assert(out[i] == ports[i]);
            assert(taken.contains(ports[i].1));
        }
    }
    assert forall|i: int, j: int| 0 <= i < j < out.len() implies (#[trigger] out[i]).1 != (
    #[trigger] out[j]).1 by {
        assert(i != k || j != k);
        if i != k && j != k {
            assert(ports[i].1 != ports[j].1);
        }
    }
}

/// The ports that are chosen for those that a template describes differ from each other, none is
/// reserved, and each is above zero and available, or was allocated.
pub proof fn law_described_ports_are_apart(
    ports: Seq<(Seq<char>, u16)>,
    reserved: Seq<u16>,
    free: Seq<u16>,
    spare: Seq<u16>,
)
    ensures
        describe_run(ports, reserved, free, spare) matches Some(run) ==> {
            &&& ports_apart(run.resolved, reserved)
            &&& forall|i: int|
                0 <= i < run.resolved.len() ==> can_be_used(
                    (#[trigger] run.resolved[i]).1,
                    free,
                    spare,
                )
        },
{
    lemma_described_ports(ports, reserved, free, spare);
}

proof fn lemma_described_ports(
    ports: Seq<(Seq<char>, u16)>,
    reserved: Seq<u16>,
    free: Seq<u16>,
    spare: Seq<u16>,
)
    ensures
        describe_run(ports, reserved, free, spare) matches Some(run) ==> {
            &&& ports_apart(run.resolved, reserved)
            &&& all_taken(run.resolved, reserved, run.taken)
            &&& forall|i: int|
                0 <= i < run.resolved.len() ==> can_be_used(
                    (#[trigger] run.resolved[i]).1,
                    free,
                    spare,
                )
            &&& forall|p: u16| run.spare.contains(p) ==> spare.contains(p)
        },
    decreases ports.len(),
{
    if ports.len() > 0 {
        let first = ports.drop_last();
        lemma_described_ports(first, reserved, free, spare);
        if describe_run(ports, reserved, free, spare) is Some {
            let before = describe_run(first, reserved, free, spare)->0;
            let run = describe_run(ports, reserved, free, spare)->0;
            let wanted = ports.last().1;
            let key = ascii_upper(ports.last().0);
            law_assigned_port_is_new(wanted, free, before.taken, before.spare);
            let a = assign(wanted, free, before.taken, before.spare)->0;
            lemma_put_apart(before.resolved, key, a.port, reserved, before.taken);
            let k = lemma_with_port(before.resolved, key, a.port);
            assert forall|i: int| 0 <= i < run.resolved.len() implies can_be_used(
                (#[trigger] run.resolved[i]).1,
                free,
                spare,
            ) by {
                if i != k {
                    assert(run.resolved[i] == before.resolved[i]);
                }
            }
        }
    }
}

/// No two names differ only in case.
pub open spec fn names_differ(ports: Seq<(Seq<char>, u16)>) -> bool {
    forall|i: int, j: int|
        0 <= i < j < ports.len() ==> ascii_upper((#[trigger] ports[i]).0) != ascii_upper(
            (#[trigger] ports[j]).0,
        )
}

/// The port that the template describes at `i` is above zero and available, not reserved, and was
/// not given out before.
pub open spec fn default_is_open(
    ports: Seq<(Seq<char>, u16)>,
    resolved: Seq<(Seq<char>, u16)>,
    reserved: Seq<u16>,
    free: Seq<u16>,
    i: int,
) -> bool {
    &&& ports[i].1 > 0
    &&& free.contains(ports[i].1)
    &&& !reserved.contains(ports[i].1)
    &&& forall|j: int| 0 <= j < i ==> (#[trigger] resolved[j]).1 != ports[i].1
}

/// What happens to the port that the template describes at `i`: it stays, and no change is noted,
/// or an allocated one takes its place, and that is noted.
pub open spec fn default_is_settled(
    ports: Seq<(Seq<char>, u16)>,
    run: DescribeRun,
    reserved: Seq<u16>,
    free: Seq<u16>,
    spare: Seq<u16>,
    i: int,
) -> bool {
    let key = ascii_upper(ports[i].0);
    let port = run.resolved[i].1;
    &&& run.resolved[i].0 == key
    &&& if default_is_open(ports, run.resolved, reserved, free, i) {
        port == ports[i].1 && forall|c: int|
            0 <= c < run.changes.len() ==> (#[trigger] run.changes[c]).key != key
    } else {
        spare.contains(port) && run.changes.contains(
            PortChangeView { key, old_port: ports[i].1, new_port: port },
        )
    }
}

/// Where no two names differ only in case, each described port has one that was chosen for it, in
/// the order of the description. The described port stays exactly where it is above zero, available,
/// not reserved and not yet given out; any other gives way to an allocated one, and the change is
/// noted.
pub proof fn law_open_defaults_stay(
    ports: Seq<(Seq<char>, u16)>,
    reserved: Seq<u16>,
    free: Seq<u16>,
    spare: Seq<u16>,
)
    requires
        names_differ(ports),
    ensures
        describe_run(ports, reserved, free, spare) matches Some(run) ==> {
            &&& run.resolved.len() == ports.len()
            &&& forall|i: int|
                0 <= i < ports.len() ==> #[trigger] default_is_settled(
                    ports,
                    run,
                    reserved,
                    free,
                    spare,
                    i,
                )
        },
{
    lemma_open_defaults(ports, reserved, free, spare);
}

proof fn lemma_open_defaults(
    ports: Seq<(Seq<char>, u16)>,
    reserved: Seq<u16>,
    free: Seq<u16>,
    spare: Seq<u16>,
)
    requires
        names_differ(ports),
    ensures
        describe_run(ports, reserved, free, spare) matches Some(run) ==> {
            &&& run.resolved.len() == ports.len()
            &&& run.taken == reserved + bare_ports(run.resolved)
            &&& forall|c: int|
                0 <= c < run.changes.len() ==> exists|i: int|
                    0 <= i < ports.len() && (#[trigger] run.changes[c]).key == ascii_upper(
                        (#[trigger] ports[i]).0,
                    )
            &&& forall|i: int|
                0 <= i < ports.len() ==> #[trigger] default_is_settled(
                    ports,
                    run,
                    reserved,
                    free,
                    spare,
                    i,
                )
        },
    decreases ports.len(),
{
    if ports.len() == 0 {
        assert(reserved + bare_ports(Seq::<(Seq<char>, u16)>::empty()) =~= reserved);
    } else {
        let first = ports.drop_last();
        let n = first.len() as int;
        assert(names_differ(first)) by {
            assert forall|i: int, j: int| 0 <= i < j < first.len() implies ascii_upper(
                (#[trigger] first[i]).0,
            ) != ascii_upper((#[trigger] first[j]).0) by {
                assert(first[i] == ports[i] && first[j] == ports[j]);
            }
        }
        lemma_open_defaults(first, reserved, free, spare);
        lemma_described_ports(first, reserved, free, spare);
        if describe_run(ports, reserved, free, spare) is Some {
            let before = describe_run(first, reserved, free, spare)->0;
            let run = describe_run(ports, reserved, free, spare)->0;
            let wanted = ports.last().1;
            let key = ascii_upper(ports.last().0);
            lemma_next_spare(before.spare, before.taken);
            let a = assign(wanted, free, before.taken, before.spare)->0;
            let k = lemma_with_port(before.resolved, key, a.port);
            if k < n {
                assert(default_is_settled(first, before, reserved, free, spare, k));
                assert(first[k] == ports[k]);
                assert(ascii_upper(ports[k].0) != ascii_upper(ports[n].0));
            }
            assert(run.resolved == before.resolved.push((key, a.port)));
            assert(run.taken =~= reserved + bare_ports(run.resolved));
            assert(before.taken.contains(wanted) <==> (reserved.contains(wanted) || exists|j: int|
                0 <= j < n && (#[trigger] before.resolved[j]).1 == wanted)) by {
                let list = bare_ports(before.resolved);
                if before.taken.contains(wanted) {
                    let m = choose|m: int| 0 <= m < before.taken.len() && before.taken[m] == wanted;
                    if m < reserved.len() {
                        assert(reserved[m] == wanted);
                    } else {
                        assert(list[m - reserved.len()] == wanted);
                        assert(before.resolved[m - reserved.len()].1 == wanted);
                    }
                }
                if reserved.contains(wanted) {
                    let m = choose|m: int| 0 <= m < reserved.len() && reserved[m] == wanted;
                    assert(before.taken[m] == wanted);
                }
                if exists|j: int| 0 <= j < n && (#[trigger] before.resolved[j]).1 == wanted {
                    let j = choose|j: int|
                        0 <= j < n && (#[trigger] before.resolved[j]).1 == wanted;
                    assert(before.taken[reserved.len() + j] == wanted);
                }
            }
            let kept = wanted > 0 && free.contains(wanted) && !before.taken.contains(wanted);
            assert(kept == default_is_open(ports, run.resolved, reserved, free, n)) by {
                assert forall|j: int| 0 <= j < n implies run.resolved[j] == before.resolved[j] by {}
                if !kept && default_is_open(ports, run.resolved, reserved, free, n) {
                    let j = choose|j: int|
                        0 <= j < n && (#[trigger] before.resolved[j]).1 == wanted;
                    assert(run.resolved[j].1 == wanted);
                }
            }
            assert forall|c: int| 0 <= c < run.changes.len() implies exists|i: int|
                0 <= i < ports.len() && (#[trigger] run.changes[c]).key == ascii_upper(
                    (#[trigger] ports[i]).0,
                ) by {
                if c < before.changes.len() {
                    assert(run.changes[c] == before.changes[c]);
                    let i = choose|i: int|
                        0 <= i < first.len() && before.changes[c].key == ascii_upper(
                            (#[trigger] first[i]).0,
                        );
                    assert(first[i] == ports[i]);
                    assert(run.changes[c].key == ascii_upper(ports[i].0));
                } else {
                    assert(run.changes[c].key == ascii_upper(ports[n].0));
                }
            }
            assert forall|i: int| 0 <= i < ports.len() implies #[trigger] default_is_settled(
                ports,
                run,
                reserved,
                free,
                spare,
                i,
            ) by {
                if i < n {
                    assert(default_is_settled(first, before, reserved, free, spare, i));
                    assert(first[i] == ports[i]);
                    assert(run.resolved[i] == before.resolved[i]);
                    assert(forall|j: int| 0 <= j < i ==> run.resolved[j] == before.resolved[j]);
                    assert(default_is_open(ports, run.resolved, reserved, free, i)
                        == default_is_open(first, before.resolved, reserved, free, i));
                    assert(ascii_upper(ports[i].0) != key) by {
                        assert(ascii_upper(ports[i].0) != ascii_upper(ports[n].0));
                    }
                    if default_is_open(ports, run.resolved, reserved, free, i) {
                        assert forall|c: int| 0 <= c < run.changes.len() implies (
                        #[trigger] run.changes[c]).key != ascii_upper(ports[i].0) by {
                            if c < before.changes.len() {
                                assert(run.changes[c] == before.changes[c]);
                            }
                        }
                    } else {
                        let change = PortChangeView {
                            key: ascii_upper(ports[i].0),
                            old_port: ports[i].1,
                            new_port: run.resolved[i].1,
                        };
                        let c = choose|c: int|
                            0 <= c < before.changes.len() && before.changes[c] == change;
                        assert(run.changes[c] == change);
                    }
                } else {
                    if kept {
                        assert forall|c: int| 0 <= c < run.changes.len() implies (
                        #[trigger] run.changes[c]).key != key by {
                            assert(run.changes[c] == before.changes[c]);
                            let m = choose|m: int|
                                0 <= m < first.len() && before.changes[c].key == ascii_upper(
                                    (#[trigger] first[m]).0,
                                );
                            assert(first[m] == ports[m]);
                            assert(ascii_upper(ports[m].0) != ascii_upper(ports[n].0));
                        }
                    } else {
                        let change = PortChangeView {
                            key,
                            old_port: wanted,
                            new_port: a.port,
                        };
                        assert(run.changes[before.changes.len() as int] == change);
                    }
                }
            }
        }
    }
}

/// The services of a new instance add only ports that are apart: those that were chosen before stay
/// where they are, all differ from each other, none is reserved, and each new one is above zero and
/// available, or was allocated.
pub proof fn law_new_ports_are_apart(
    content: Seq<char>,
    ports: Seq<(Seq<char>, u16)>,
    changes: Seq<PortChangeView>,
    reserved: Seq<u16>,
    free: Seq<u16>,
    spare: Seq<u16>,
    services: Seq<(Seq<char>, Seq<char>)>,
)
    requires
        ports_apart(ports, reserved),
    ensures
        new_ports_run(
            new_ports_start(content, ports, changes, reserved, spare),
            services,
            free,
        ) matches Some(run) ==> {
            &&& ports_apart(run.ports, reserved)
            &&& ports.len() <= run.ports.len()
            &&& run.ports.take(ports.len() as int) == ports
            &&& forall|i: int|
                ports.len() <= i < run.ports.len() ==> can_be_used(
                    (#[trigger] run.ports[i]).1,
                    free,
                    spare,
                )
        },
{
    lemma_new_ports(content, ports, changes, reserved, free, spare, services);
}

proof fn lemma_no_first_port(ports: Seq<(Seq<char>, u16)>, name: Seq<char>, i: int)
    requires
        0 <= i,
        first_port(ports, name, i) is None,
    ensures
        forall|k: int| i <= k < ports.len() ==> (#[trigger] ports[k]).0 != name,
    decreases ports.len() - i,
{
    if i < ports.len() {
        lemma_no_first_port(ports, name, i + 1);
    }
}

proof fn lemma_new_ports(
    content: Seq<char>,
    ports: Seq<(Seq<char>, u16)>,
    changes: Seq<PortChangeView>,
    reserved: Seq<u16>,
    free: Seq<u16>,
    spare: Seq<u16>,
    services: Seq<(Seq<char>, Seq<char>)>,
)
    requires
        ports_apart(ports, reserved),
    ensures
        new_ports_run(
            new_ports_start(content, ports, changes, reserved, spare),
            services,
            free,
        ) matches Some(run) ==> {
            &&& ports_apart(run.ports, reserved)
            &&& all_taken(run.ports, reserved, run.taken)
            &&& ports.len() <= run.ports.len()
            &&& run.ports.take(ports.len() as int) == ports
            &&& forall|i: int|
                ports.len() <= i < run.ports.len() ==> can_be_used(
                    (#[trigger] run.ports[i]).1,
                    free,
                    spare,
                )
            &&& forall|p: u16| run.spare.contains(p) ==> spare.contains(p)
        },
    decreases services.len(),
{
    let start = new_ports_start(content, ports, changes, reserved, spare);
    let n = ports.len() as int;
    if services.len() == 0 {
        assert forall|i: int| 0 <= i < ports.len() implies start.taken.contains(
            (#[trigger] ports[i]).1,
        ) by {
            assert(bare_ports(ports)[i] == ports[i].1);
            assert(start.taken[reserved.len() + i] == ports[i].1);
        }
        assert forall|p: u16| reserved.contains(p) implies start.taken.contains(p) by {
            let k = choose|k: int| 0 <= k < reserved.len() && reserved[k] == p;
            assert(start.taken[k] == p);
        }
        assert(ports.take(n) =~= ports);
    } else {
        lemma_new_ports(content, ports, changes, reserved, free, spare, services.drop_last());
        if new_ports_run(start, services, free) is Some {
            let before = new_ports_run(start, services.drop_last(), free)->0;
            let run = new_ports_run(start, services, free)->0;
            let service = services.last();
            let default = url_port_or_zero(service.1);
            let key = port_key(service.0);
            if default != 0 && first_port(before.ports, key, 0) is None && change_of_port(
                before.changes,
                default,
                0,
            ) is None && !before.taken.contains(default as u16) {
                law_assigned_port_is_new(default as u16, free, before.taken, before.spare);
                let a = assign(default as u16, free, before.taken, before.spare)->0;
                lemma_put_apart(before.ports, key, a.port, reserved, before.taken);
                let k = lemma_with_port(before.ports, key, a.port);
                lemma_no_first_port(before.ports, key, 0);
                assert(run.ports == before.ports.push((key, a.port)));
                assert(run.ports.take(n) =~= before.ports.take(n));
                assert forall|i: int| n <= i < run.ports.len() implies can_be_used(
                    (#[trigger] run.ports[i]).1,
                    free,
                    spare,
                ) by {
                    if i < before.ports.len() {
                        assert(run.ports[i] == before.ports[i]);
                    }
                }
            }
        }
    }
}

/// All ports of a new instance are apart: those that are chosen for the ports that its template
/// describes, and those that its services add.
pub proof fn law_ports_of_a_new_instance_are_apart(
    described: Seq<(Seq<char>, u16)>,
    content: Seq<char>,
    services: Seq<(Seq<char>, Seq<char>)>,
    reserved: Seq<u16>,
    free: Seq<u16>,
    spare: Seq<u16>,
    later_free: Seq<u16>,
    later_spare: Seq<u16>,
)
    ensures
        describe_run(described, reserved, free, spare) matches Some(first) ==> (new_ports_run(
            new_ports_start(content, first.resolved, first.changes, reserved, later_spare),
            services,
            later_free,
        ) matches Some(run) ==> ports_apart(run.ports, reserved) && first.resolved.is_prefix_of(
            run.ports,
        )),
{
    law_described_ports_are_apart(described, reserved, free, spare);
    if describe_run(described, reserved, free, spare) is Some {
        let first = describe_run(described, reserved, free, spare)->0;
        let start = new_ports_start(
            content,
            first.resolved,
            first.changes,
            reserved,
            later_spare,
        );
        law_new_ports_are_apart(
            content,
            first.resolved,
            first.changes,
            reserved,
            later_free,
            later_spare,
            services,
        );
        if new_ports_run(start, services, later_free) is Some {
            let run = new_ports_run(start, services, later_free)->0;
            assert(run.ports.subrange(0, first.resolved.len() as int) =~= run.ports.take(
                first.resolved.len() as int,
            ));
        }
    }
}

} // verus!
