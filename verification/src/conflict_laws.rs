//! Which ports stay and which move when conflicts are resolved.
use vstd::prelude::*;

use crate::deploy::{
    bare_ports, chosen_port, held_elsewhere, port_key, service_run, url_port_or_zero, wanted_port,
};
use crate::env::EnvVariableView;
use crate::number::decimal;
use crate::port_laws::{
    has_colon, holds_local_port, law_assigned_port_is_new, lemma_colon_is_no_port,
    lemma_decimal_is_port, lemma_followed_with_colon, lemma_moved_port_with_colon,
    lemma_named_port_with_colon, lemma_port_run,
};
use crate::ports::{
    assign, follow_changes, index_with_upper_key, local_port_key, local_url, port_run, port_value,
    resolved_conflicts, with_named_port, PortChangeView,
};
use crate::search::{contains, ends_with};
use crate::text::ascii_upper;
use crate::urls::url_port;

verus! {

// ---------------------------------------------------------------------------------------------
// Variables that hold ports
// ---------------------------------------------------------------------------------------------
/// A name of this kind belongs to a database or another service that is not one of the instance.
pub open spec fn names_outside_service(upper: Seq<char>) -> bool {
    exists|k: int|
        0 <= k < outside_names().len() && contains(upper, #[trigger] outside_names()[k])
}

/// What the names of outside services hold.
pub open spec fn outside_names() -> Seq<Seq<char>> {
    seq![
        "DB"@,
        "DATABASE"@,
        "MYSQL"@,
        "POSTGRES"@,
        "POSTGRESQL"@,
        "REDIS"@,
        "SEEKDB"@,
        "OCEANBASE"@,
        "OBSERVER"@,
        "MONGO"@,
        "ELASTIC"@,
        "QDRANT"@,
    ]
}

/// A variable holds the port of a service of its instance exactly where its name is `PORT` or ends in
/// `_PORT`, in whatever case, and names no outside service.
pub proof fn law_local_port_names(key: Seq<char>)
    ensures
        local_port_key(key) <==> (ascii_upper(key) == "PORT"@ || ends_with(
            ascii_upper(key),
            "_PORT"@,
        )) && !names_outside_service(ascii_upper(key)),
{
    let k = ascii_upper(key);
    let names = outside_names();
    assert(names[0] == "DB"@ && names[1] == "DATABASE"@ && names[2] == "MYSQL"@ && names[3]
        == "POSTGRES"@ && names[4] == "POSTGRESQL"@ && names[5] == "REDIS"@ && names[6]
        == "SEEKDB"@ && names[7] == "OCEANBASE"@ && names[8] == "OBSERVER"@ && names[9]
        == "MONGO"@ && names[10] == "ELASTIC"@ && names[11] == "QDRANT"@);
    if names_outside_service(k) {
        let i = choose|i: int| 0 <= i < names.len() && contains(k, #[trigger] names[i]);
        assert(names[i] == "DB"@ || names[i] == "DATABASE"@ || names[i] == "MYSQL"@ || names[i]
            == "POSTGRES"@ || names[i] == "POSTGRESQL"@ || names[i] == "REDIS"@ || names[i]
            == "SEEKDB"@ || names[i] == "OCEANBASE"@ || names[i] == "OBSERVER"@ || names[i]
            == "MONGO"@ || names[i] == "ELASTIC"@ || names[i] == "QDRANT"@);
    } else {
        assert(!contains(k, names[0]) && !contains(k, names[1]) && !contains(k, names[2])
            && !contains(k, names[3]) && !contains(k, names[4]) && !contains(k, names[5])
            && !contains(k, names[6]) && !contains(k, names[7]) && !contains(k, names[8])
            && !contains(k, names[9]) && !contains(k, names[10]) && !contains(k, names[11]));
    }
}

/// The port of a database or another outside service stays, whoever holds it: its variable is not
/// touched.
pub proof fn law_ports_of_outside_services_stay(
    entries: Seq<EnvVariableView>,
    free: Seq<u16>,
    spare: Seq<u16>,
    i: int,
)
    requires
        0 <= i < entries.len(),
        names_outside_service(ascii_upper(entries[i].key)),
        port_value(entries[i].value) is Some,
    ensures
        resolved_conflicts(entries, free, spare) matches Some((out, changes)) ==> out[i]
            == entries[i],
{
    if port_run(entries, free, spare) is Some {
        law_local_port_names(entries[i].key);
        lemma_port_run(entries, free, spare);
        let run = port_run(entries, free, spare)->0;
        assert(run.entries[i] == entries[i]);
        lemma_bare_value_stays(entries[i], run.changes, run.changes.len());
    }
}

/// A value without a colon holds no address that could follow a change.
proof fn lemma_bare_value_stays(entry: EnvVariableView, changes: Seq<PortChangeView>, n: nat)
    requires
        port_value(entry.value) is Some,
        n <= changes.len(),
    ensures
        follow_changes(entry, changes, n) == entry,
        forall|ports: Seq<(Seq<char>, u16)>| #[trigger] with_named_port(entry, ports) == entry,
    decreases n,
{
    if has_colon(entry.value) {
        lemma_colon_is_no_port(entry.value);
    }
    if n > 0 {
        lemma_bare_value_stays(entry, changes, (n - 1) as nat);
        lemma_moved_port_with_colon(
            entry.value,
            changes[n - 1].old_port,
            changes[n - 1].new_port,
        );
    }
    assert forall|ports: Seq<(Seq<char>, u16)>| #[trigger]
        with_named_port(entry, ports) == entry by {
        lemma_named_port_with_colon(entry, ports);
        if local_url(entry.value) {
            crate::port_laws::lemma_local_url_has_colon(entry.value);
        }
    }
}

// ---------------------------------------------------------------------------------------------
// Conflicts between variables
// ---------------------------------------------------------------------------------------------
/// The port that the variable at `i` holds is above zero and available, and no variable before it
/// holds it in the end.
pub open spec fn port_is_open(
    entries: Seq<EnvVariableView>,
    out: Seq<EnvVariableView>,
    free: Seq<u16>,
    i: int,
) -> bool {
    let port = port_value(entries[i].value)->0;
    &&& port > 0
    &&& free.contains(port as u16)
    &&& forall|j: int|
        0 <= j < i && holds_local_port(#[trigger] out[j]) ==> port_value(out[j].value)->0 != port
}

/// What becomes of the port that the variable at `i` holds: an open one stays, and no change is
/// noted for it; any other gives way to an allocated one, the variable is marked as modified, and
/// the change is noted.
pub open spec fn port_is_settled(
    entries: Seq<EnvVariableView>,
    out: Seq<EnvVariableView>,
    changes: Seq<PortChangeView>,
    free: Seq<u16>,
    spare: Seq<u16>,
    i: int,
) -> bool {
    if port_is_open(entries, out, free, i) {
        out[i] == entries[i]
    } else {
        exists|c: int|
            0 <= c < changes.len() && (#[trigger] changes[c]).key == entries[i].key
                && changes[c].old_port == port_value(entries[i].value)->0 && spare.contains(
                changes[c].new_port,
            ) && out[i] == (EnvVariableView {
                value: decimal(changes[c].new_port as nat),
                modified: true,
                ..entries[i]
            })
    }
}

/// How many of the variables had to give their port up.
pub open spec fn moved_variables(
    entries: Seq<EnvVariableView>,
    out: Seq<EnvVariableView>,
    free: Seq<u16>,
) -> nat {
    Seq::new(entries.len(), |i: int| i).filter(
        |i: int| holds_local_port(entries[i]) && !port_is_open(entries, out, free, i),
    ).len()
}

proof fn lemma_run_settles(entries: Seq<EnvVariableView>, free: Seq<u16>, spare: Seq<u16>)
    requires
        port_run(entries, free, spare) is Some,
    ensures
        ({
            let run = port_run(entries, free, spare)->0;
            &&& run.entries.len() == entries.len()
            &&& forall|p: u16|
                #![trigger run.taken.contains(p)]
                run.taken.contains(p) <==> exists|j: int|
                    0 <= j < entries.len() && holds_local_port(#[trigger] run.entries[j])
                        && port_value(run.entries[j].value) == Some(p as nat)
            &&& forall|p: u16| run.spare.contains(p) ==> spare.contains(p)
            &&& forall|i: int|
                0 <= i < entries.len() && holds_local_port(#[trigger] entries[i])
                    ==> port_is_settled(entries, run.entries, run.changes, free, spare, i)
            &&& forall|i: int|
                0 <= i < entries.len() && !holds_local_port(#[trigger] entries[i])
                    ==> run.entries[i] == entries[i]
            &&& run.changes.len() == moved_variables(entries, run.entries, free)
        }),
    decreases entries.len(),
{
    reveal(Seq::filter);
    if entries.len() == 0 {
        let run = port_run(entries, free, spare)->0;
        assert(run.taken =~= Seq::<u16>::empty());
    } else {
        let first = entries.drop_last();
        let entry = entries.last();
        let n = first.len() as int;
        lemma_run_settles(first, free, spare);
        let before = port_run(first, free, spare)->0;
        let run = port_run(entries, free, spare)->0;
        let last = run.entries.last();
        assert(entries[n] == entry && run.entries[n] == last);
        assert forall|i: int| 0 <= i < n implies run.entries[i] == before.entries[i] && entries[i]
            == first[i] by {}
        let wanted = port_value(entry.value)->0 as u16;
        let open = wanted > 0 && free.contains(wanted) && !before.taken.contains(wanted);
        if holds_local_port(entry) {
            law_assigned_port_is_new(wanted, free, before.taken, before.spare);
            let a = assign(wanted, free, before.taken, before.spare)->0;
            lemma_decimal_is_port(a.port);
            assert(port_value(last.value) == Some(a.port as nat));
            assert(holds_local_port(last));
            assert(run.taken == before.taken.push(a.port));
            assert(open == port_is_open(entries, run.entries, free, n)) by {
                if !open && port_is_open(entries, run.entries, free, n) {
                    assert(before.taken.contains(wanted));
                    let j = choose|j: int|
                        0 <= j < first.len() && holds_local_port(#[trigger] before.entries[j])
                            && port_value(before.entries[j].value) == Some(wanted as nat);
                    assert(holds_local_port(run.entries[j]));
                }
                if open && !port_is_open(entries, run.entries, free, n) {
                    let j = choose|j: int|
                        0 <= j < n && holds_local_port(#[trigger] run.entries[j]) && port_value(
                            run.entries[j].value,
                        )->0 == wanted;
                    assert(holds_local_port(before.entries[j]));
                    assert(before.taken.contains(wanted));
                }
            }
            if !open {
                let c = before.changes.len() as int;
                assert(run.changes[c].new_port == a.port);
                crate::port_laws::lemma_next_spare(before.spare, before.taken);
            }
            assert forall|p: u16|
                #![trigger run.taken.contains(p)]
                run.taken.contains(p) <==> exists|j: int|
                    0 <= j < entries.len() && holds_local_port(#[trigger] run.entries[j])
                        && port_value(run.entries[j].value) == Some(p as nat) by {
                if run.taken.contains(p) {
                    let t = choose|t: int| 0 <= t < run.taken.len() && run.taken[t] == p;
                    if t == before.taken.len() {
                        assert(holds_local_port(run.entries[n]));
                    } else {
                        assert(before.taken[t] == p);
                        assert(before.taken.contains(p));
                        let j = choose|j: int|
                            0 <= j < first.len() && holds_local_port(#[trigger] before.entries[j])
                                && port_value(before.entries[j].value) == Some(p as nat);
                        assert(holds_local_port(run.entries[j]));
                    }
                }
                if exists|j: int|
                    0 <= j < entries.len() && holds_local_port(#[trigger] run.entries[j])
                        && port_value(run.entries[j].value) == Some(p as nat) {
                    let j = choose|j: int|
                        0 <= j < entries.len() && holds_local_port(#[trigger] run.entries[j])
                            && port_value(run.entries[j].value) == Some(p as nat);
                    if j == n {
                        assert(run.taken[before.taken.len() as int] == p);
                    } else {
                        assert(holds_local_port(before.entries[j]));
                        assert(before.taken.contains(p));
                        let t = choose|t: int| 0 <= t < before.taken.len() && before.taken[t] == p;
                        assert(run.taken[t] == p);
                    }
                }
            }
        } else {
            assert(!holds_local_port(last));
            assert forall|p: u16|
                #![trigger run.taken.contains(p)]
                run.taken.contains(p) <==> exists|j: int|
                    0 <= j < entries.len() && holds_local_port(#[trigger] run.entries[j])
                        && port_value(run.entries[j].value) == Some(p as nat) by {
                if run.taken.contains(p) {
                    let j = choose|j: int|
                        0 <= j < first.len() && holds_local_port(#[trigger] before.entries[j])
                            && port_value(before.entries[j].value) == Some(p as nat);
                    assert(holds_local_port(run.entries[j]));
                }
                if exists|j: int|
                    0 <= j < entries.len() && holds_local_port(#[trigger] run.entries[j])
                        && port_value(run.entries[j].value) == Some(p as nat) {
                    let j = choose|j: int|
                        0 <= j < entries.len() && holds_local_port(#[trigger] run.entries[j])
                            && port_value(run.entries[j].value) == Some(p as nat);
                    assert(holds_local_port(before.entries[j]));
                    assert(before.taken.contains(p));
                }
            }
        }
        assert forall|i: int| 0 <= i < n implies #[trigger] port_is_open(
            entries,
            run.entries,
            free,
            i,
        ) == port_is_open(first, before.entries, free, i) by {
            assert(first[i] == entries[i]);
            assert forall|j: int| 0 <= j < i implies run.entries[j] == before.entries[j] by {}
        }
        assert forall|i: int| 0 <= i < entries.len() && holds_local_port(#[trigger] entries[i]) implies
            port_is_settled(entries, run.entries, run.changes, free, spare, i) by {
            if i < n {
                assert(holds_local_port(first[i]));
                assert(port_is_settled(first, before.entries, before.changes, free, spare, i));
                if !port_is_open(entries, run.entries, free, i) {
                    let c = choose|c: int|
                        0 <= c < before.changes.len() && (#[trigger] before.changes[c]).key
                            == first[i].key && before.changes[c].old_port == port_value(
                            first[i].value,
                        )->0 && spare.contains(before.changes[c].new_port) && before.entries[i]
                            == (EnvVariableView {
                            value: decimal(before.changes[c].new_port as nat),
                            modified: true,
                            ..first[i]
                        });
                    assert(run.changes[c] == before.changes[c]);
                }
            } else if !open {
                let c = before.changes.len() as int;
                assert(run.changes[c].key == entries[i].key);
            }
        }
        assert(before.entries =~= run.entries.drop_last());
        lemma_count_moved(entries, run.entries, first, before.entries, free);
    }
}

/// One more variable counts where its port had to move.
proof fn lemma_count_moved(
    entries: Seq<EnvVariableView>,
    out: Seq<EnvVariableView>,
    first: Seq<EnvVariableView>,
    before: Seq<EnvVariableView>,
    free: Seq<u16>,
)
    requires
        entries.len() > 0,
        out.len() == entries.len(),
        first == entries.drop_last(),
        before == out.drop_last(),
    ensures
        ({
            let n = entries.len() - 1;
            moved_variables(entries, out, free) == moved_variables(first, before, free) + (if
            holds_local_port(entries[n]) && !port_is_open(entries, out, free, n) {
                1nat
            } else {
                0nat
            })
        }),
{
    reveal(Seq::filter);
    let n = entries.len() - 1;
    let all = Seq::new(entries.len(), |i: int| i);
    let less = Seq::new(first.len(), |i: int| i);
    let p = |i: int| holds_local_port(entries[i]) && !port_is_open(entries, out, free, i);
    let q = |i: int| holds_local_port(first[i]) && !port_is_open(first, before, free, i);
    assert(all.drop_last() =~= less);
    assert(all.last() == n);
    assert forall|i: int| 0 <= i < less.len() implies #[trigger] p(i) == q(i) by {
        assert(first[i] == entries[i]);
        assert(forall|j: int| 0 <= j < i ==> before[j] == out[j]);
        assert(port_is_open(entries, out, free, i) == port_is_open(first, before, free, i));
    }
    lemma_same_picks(less, p, q);
}

proof fn lemma_same_picks(list: Seq<int>, p: spec_fn(int) -> bool, q: spec_fn(int) -> bool)
    requires
        forall|i: int| 0 <= i < list.len() ==> p(#[trigger] list[i]) == q(list[i]),
    ensures
        list.filter(p) == list.filter(q),
    decreases list.len(),
{
    reveal(Seq::filter);
    if list.len() > 0 {
        let rest = list.drop_last();
        assert forall|i: int| 0 <= i < rest.len() implies p(#[trigger] rest[i]) == q(rest[i]) by {
            assert(rest[i] == list[i]);
        }
        lemma_same_picks(rest, p, q);
        assert(p(list[list.len() - 1]) == q(list[list.len() - 1]));
    }
}

/// When conflicts between the variables of an instance are resolved, a port that is above zero,
/// available and not held by an earlier variable stays; any other one of a service of the instance
/// gives way to an allocated port, and every such change, and no other, is noted.
pub proof fn law_only_blocked_ports_move(
    entries: Seq<EnvVariableView>,
    free: Seq<u16>,
    spare: Seq<u16>,
)
    ensures
        resolved_conflicts(entries, free, spare) matches Some((out, changes)) ==> {
            &&& out.len() == entries.len()
            &&& forall|i: int|
                0 <= i < entries.len() && holds_local_port(#[trigger] entries[i])
                    ==> port_is_settled(entries, out, changes, free, spare, i)
            &&& changes.len() == moved_variables(entries, out, free)
        },
{
    if port_run(entries, free, spare) is Some {
        lemma_run_settles(entries, free, spare);
        let run = port_run(entries, free, spare)->0;
        let followed = run.entries.map_values(
            |e: EnvVariableView| follow_changes(e, run.changes, run.changes.len()),
        );
        let ports = crate::ports::plain_ports(followed);
        let out = followed.map_values(|e: EnvVariableView| with_named_port(e, ports));
        assert forall|i: int| 0 <= i < entries.len() implies (holds_local_port(
            #[trigger] run.entries[i],
        ) ==> out[i] == run.entries[i]) && (holds_local_port(out[i]) ==> out[i]
            == run.entries[i]) by {
            if holds_local_port(run.entries[i]) {
                lemma_bare_value_stays(run.entries[i], run.changes, run.changes.len());
                assert(with_named_port(followed[i], ports) == followed[i]);
            }
            lemma_followed_with_colon(run.entries[i], run.changes, run.changes.len());
            lemma_named_port_with_colon(followed[i], ports);
            if holds_local_port(out[i]) {
                if has_colon(out[i].value) {
                    lemma_colon_is_no_port(out[i].value);
                }
                assert(out[i].value == run.entries[i].value);
                lemma_bare_value_stays(run.entries[i], run.changes, run.changes.len());
                assert(with_named_port(followed[i], ports) == followed[i]);
            }
        }
        assert forall|i: int| 0 <= i < entries.len() implies #[trigger] port_is_open(
            entries,
            out,
            free,
            i,
        ) == port_is_open(entries, run.entries, free, i) by {
            assert forall|j: int| 0 <= j < i implies (holds_local_port(#[trigger] out[j])
                == holds_local_port(run.entries[j])) && (holds_local_port(out[j]) ==> out[j]
                == run.entries[j]) by {
                assert(holds_local_port(run.entries[j]) ==> out[j] == run.entries[j]);
            }
            if port_is_open(entries, out, free, i) {
                assert forall|j: int| 0 <= j < i && holds_local_port(#[trigger] run.entries[j]) implies
                    port_value(run.entries[j].value)->0 != port_value(entries[i].value)->0 by {
                    assert(holds_local_port(out[j]));
                }
            }
        }
        assert forall|i: int| 0 <= i < entries.len() && holds_local_port(#[trigger] entries[i]) implies
            port_is_settled(entries, out, run.changes, free, spare, i) by {
            assert(port_is_settled(entries, run.entries, run.changes, free, spare, i));
            assert(holds_local_port(run.entries[i])) by {
                if !port_is_open(entries, run.entries, free, i) {
                    let c = choose|c: int|
                        0 <= c < run.changes.len() && (#[trigger] run.changes[c]).key
                            == entries[i].key && run.changes[c].old_port == port_value(
                            entries[i].value,
                        )->0 && spare.contains(run.changes[c].new_port) && run.entries[i] == (
                        EnvVariableView {
                            value: decimal(run.changes[c].new_port as nat),
                            modified: true,
                            ..entries[i]
                        });
                    lemma_decimal_is_port(run.changes[c].new_port);
                }
            }
            assert(out[i] == run.entries[i]);
        }
        let all = Seq::new(entries.len(), |i: int| i);
        let p = |i: int| holds_local_port(entries[i]) && !port_is_open(entries, out, free, i);
        let q = |i: int|
            holds_local_port(entries[i]) && !port_is_open(entries, run.entries, free, i);
        lemma_same_picks(all, p, q);
    }
}

// ---------------------------------------------------------------------------------------------
// Ports of the services of a saved instance
// ---------------------------------------------------------------------------------------------
/// The port that a service should have: the one above zero in the first variable that bears its name
/// and ends in `_PORT`, in whatever case; without such a port, the one in its URL, unless another
/// variable holds that one. A service whose URL names no port above zero should have none.
pub open spec fn should_have(
    service: (Seq<char>, Seq<char>),
    env: Seq<EnvVariableView>,
    port: u16,
) -> bool {
    let key = ascii_upper(service.0) + "_PORT"@;
    let chosen = exists|i: int| is_chosen(env, key, i);
    &&& port > 0
    &&& url_port(service.1) is Some
    &&& url_port(service.1)->0 > 0
    &&& if chosen {
        exists|i: int| is_chosen(env, key, i) && port_value(env[i].value) == Some(port as nat)
    } else {
        &&& url_port(service.1) == Some(port as nat)
        &&& forall|i: int|
            0 <= i < env.len() && ascii_upper((#[trigger] env[i]).key) != key ==> port_value(
                env[i].value,
            ) != Some(port as nat)
    }
}

/// The variable at `i` is the first with this key, in whatever case, and holds a port above zero.
pub open spec fn is_chosen(env: Seq<EnvVariableView>, key: Seq<char>, i: int) -> bool {
    &&& 0 <= i < env.len()
    &&& ascii_upper(env[i].key) == key
    &&& forall|j: int| 0 <= j < i ==> ascii_upper((#[trigger] env[j]).key) != key
    &&& port_value(env[i].value) is Some
    &&& port_value(env[i].value)->0 > 0
}

proof fn lemma_first_key(env: Seq<EnvVariableView>, key: Seq<char>, i: int)
    requires
        0 <= i,
    ensures
        match index_with_upper_key(env, key, i) {
            Some(k) => i <= k < env.len() && ascii_upper(env[k].key) == key && forall|j: int|
                i <= j < k ==> ascii_upper((#[trigger] env[j]).key) != key,
            None => forall|j: int|
                i <= j < env.len() ==> ascii_upper((#[trigger] env[j]).key) != key,
        },
    decreases env.len() - i,
{
    if i < env.len() && ascii_upper(env[i].key) != key {
        lemma_first_key(env, key, i + 1);
    }
}

proof fn lemma_url_port_fits(url: Seq<char>)
    ensures
        url_port(url) matches Some(p) ==> p <= 65535,
{
}

proof fn lemma_should_have(service: (Seq<char>, Seq<char>), env: Seq<EnvVariableView>)
    ensures
        forall|port: u16| #[trigger]
            should_have(service, env, port) <==> wanted_port(service, env) == Some(port as nat),
        wanted_port(service, env) matches Some(p) ==> 0 < p <= 65535,
{
    let key = port_key(service.0);
    lemma_first_key(env, key, 0);
    lemma_url_port_fits(service.1);
    assert forall|i: int| #[trigger] is_chosen(env, key, i) <==> index_with_upper_key(env, key, 0)
        == Some(i) && port_value(env[i].value) is Some && port_value(env[i].value)->0 > 0 by {
        if is_chosen(env, key, i) {
            match index_with_upper_key(env, key, 0) {
                Some(k) => {
                    if k < i {
                        assert(ascii_upper(env[k].key) != key);
                    } else if i < k {
                        assert(ascii_upper(env[i].key) != key);
                    }
                },
                None => {
                    assert(ascii_upper(env[i].key) != key);
                },
            }
        }
    }
    let default = url_port_or_zero(service.1);
    if chosen_port(env, key) is Some {
        let i = index_with_upper_key(env, key, 0)->0;
        assert(is_chosen(env, key, i));
    }
    assert forall|port: u16| #[trigger] should_have(service, env, port) <==> wanted_port(
        service,
        env,
    ) == Some(port as nat) by {
        if chosen_port(env, key) is Some {
            let i = index_with_upper_key(env, key, 0)->0;
            assert(is_chosen(env, key, i));
            if should_have(service, env, port) {
                let m = choose|m: int|
                    is_chosen(env, key, m) && port_value(env[m].value) == Some(port as nat);
                assert(m == i);
            }
        } else if default > 0 {
            if exists|i: int| is_chosen(env, key, i) {
                let i = choose|i: int| is_chosen(env, key, i);
                assert(chosen_port(env, key) is Some);
            }
            if held_elsewhere(env, key, default) && port == default {
                let m = choose|m: int|
                    0 <= m < env.len() && ascii_upper((#[trigger] env[m]).key) != key && port_value(
                        env[m].value,
                    ) == Some(default);
                assert(!should_have(service, env, port));
            }
            if !held_elsewhere(env, key, default) && port == default {
                assert forall|i: int|
                    0 <= i < env.len() && ascii_upper((#[trigger] env[i]).key) != key implies
                    port_value(env[i].value) != Some(port as nat) by {
                    assert(!(ascii_upper(env[i].key) != key && port_value(env[i].value) == Some(
                        default,
                    )));
                }
            }
        }
    }
}

/// The ports under names, without their names, are those that are taken besides the reserved ones.
proof fn lemma_taken_by_services(
    services: Seq<(Seq<char>, Seq<char>)>,
    env: Seq<EnvVariableView>,
    reserved: Seq<u16>,
    free: Seq<u16>,
    spare: Seq<u16>,
)
    ensures
        service_run(services, env, reserved, free, spare) matches Some(run) ==> run.taken
            == reserved + bare_ports(run.ports) && forall|p: u16|
            run.spare.contains(p) ==> spare.contains(p),
    decreases services.len(),
{
    if services.len() == 0 {
        assert(reserved + bare_ports(Seq::<(Seq<char>, u16)>::empty()) =~= reserved);
    } else {
        let first = services.drop_last();
        lemma_taken_by_services(first, env, reserved, free, spare);
        if service_run(services, env, reserved, free, spare) is Some {
            let before = service_run(first, env, reserved, free, spare)->0;
            let run = service_run(services, env, reserved, free, spare)->0;
            match wanted_port(services.last(), env) {
                Some(wanted) => {
                    law_assigned_port_is_new(wanted as u16, free, before.taken, before.spare);
                    assert(run.taken =~= reserved + bare_ports(run.ports));
                },
                None => {},
            }
        }
    }
}

/// The ports of the services before the last one, and what the last one gets: nothing where it should
/// have no port; the port that it should have where that one is available, not reserved and not given
/// to a service before it; and else an allocated port, which is noted as a change.
pub proof fn law_service_gets_its_port(
    services: Seq<(Seq<char>, Seq<char>)>,
    env: Seq<EnvVariableView>,
    reserved: Seq<u16>,
    free: Seq<u16>,
    spare: Seq<u16>,
    port: u16,
)
    requires
        services.len() > 0,
    ensures
        service_run(services, env, reserved, free, spare) matches Some(run) ==> (service_run(
            services.drop_last(),
            env,
            reserved,
            free,
            spare,
        ) matches Some(before) && {
            let key = ascii_upper(services.last().0) + "_PORT"@;
            let open = free.contains(port) && !reserved.contains(port) && forall|i: int|
                0 <= i < before.ports.len() ==> (#[trigger] before.ports[i]).1 != port;
            &&& (forall|p: u16| !should_have(services.last(), env, p)) ==> run.ports == before.ports
                && run.changes == before.changes
            &&& should_have(services.last(), env, port) && open ==> run.ports == before.ports.push(
                (key, port),
            ) && run.changes == before.changes
            &&& should_have(services.last(), env, port) && !open ==> exists|q: u16|
                #![trigger spare.contains(q)]
                spare.contains(q) && run.ports == before.ports.push((key, q)) && run.changes
                    == before.changes.push(
                    PortChangeView { key, old_port: port, new_port: q },
                )
        }),
{
    if service_run(services, env, reserved, free, spare) is Some {
        let first = services.drop_last();
        let before = service_run(first, env, reserved, free, spare)->0;
        let run = service_run(services, env, reserved, free, spare)->0;
        let service = services.last();
        lemma_should_have(service, env);
        lemma_taken_by_services(first, env, reserved, free, spare);
        if wanted_port(service, env) is Some {
            assert(should_have(service, env, wanted_port(service, env)->0 as u16));
        }
        if should_have(service, env, port) {
            let list = bare_ports(before.ports);
            assert(before.taken.contains(port) <==> reserved.contains(port) || exists|i: int|
                0 <= i < before.ports.len() && (#[trigger] before.ports[i]).1 == port) by {
                if before.taken.contains(port) {
                    let m = choose|m: int| 0 <= m < before.taken.len() && before.taken[m] == port;
                    if m < reserved.len() {
                        assert(reserved[m] == port);
                    } else {
                        assert(list[m - reserved.len()] == port);
                        assert(before.ports[m - reserved.len()].1 == port);
                    }
                }
                if reserved.contains(port) {
                    let m = choose|m: int| 0 <= m < reserved.len() && reserved[m] == port;
                    assert(before.taken[m] == port);
                }
                if exists|i: int|
                    0 <= i < before.ports.len() && (#[trigger] before.ports[i]).1 == port {
                    let i = choose|i: int|
                        0 <= i < before.ports.len() && (#[trigger] before.ports[i]).1 == port;
                    assert(before.taken[reserved.len() + i] == port);
                }
            }
            crate::port_laws::lemma_next_spare(before.spare, before.taken);
            let a = assign(port, free, before.taken, before.spare)->0;
            if !(free.contains(port) && !before.taken.contains(port)) {
                assert(spare.contains(a.port));
            }
        }
    }
}

} // verus!
