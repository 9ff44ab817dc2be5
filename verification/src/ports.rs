//! Local service ports: which variables hold one, and how conflicts are resolved.
//!
//! Probing and allocating a port is work of the operating system. The functions here take its
//! outcome as two lists: `free` holds the ports that were found available, `spare` the ports that
//! were allocated, in order.
use vstd::prelude::*;
use vstd::string::*;

use crate::env::{env_views, EnvVariable, EnvVariableView};
use crate::number::{decimal, decimal_text, parse_u16, parse_unsigned};
use crate::search::{
    contains, ends_with, text_has, has_prefix, has_suffix, starts_with, trim, trim_end_all, trimmed,
    trimmed_end_all,
};
use crate::split::{
    lines, replace_all, replaced, split_once, split_text_once, text_lines,
};
use crate::text::{
    ascii_lower, ascii_upper, byte_len, join, join_texts, owned, same, texts, to_ascii_lower,
    to_ascii_upper, utf8_length,
};
use crate::urls::{extract_url_port, replace_url_port, url_port, url_with_port};

verus! {

/// A port that was moved.
#[derive(Debug)]
pub struct PortChange {
    pub key: String,
    pub old_port: u16,
    pub new_port: u16,
}

/// What a [`PortChange`] holds.
#[verifier::ext_equal]
pub struct PortChangeView {
    pub key: Seq<char>,
    pub old_port: u16,
    pub new_port: u16,
}

impl View for PortChange {
    type V = PortChangeView;

    open spec fn view(&self) -> PortChangeView {
        PortChangeView { key: self.key@, old_port: self.old_port, new_port: self.new_port }
    }
}

/// The list of allocated ports ran out before every conflict was resolved.
#[derive(Debug)]
pub struct NoSparePort;

/// The changes of a list.
pub open spec fn change_views(list: Seq<PortChange>) -> Seq<PortChangeView> {
    list.map_values(|c: PortChange| c@)
}

/// The named ports of a list.
pub open spec fn port_views(list: Seq<(String, u16)>) -> Seq<(Seq<char>, u16)> {
    list.map_values(|p: (String, u16)| (p.0@, p.1))
}

// ---------------------------------------------------------------------------------------------
// Variables that hold a local port
// ---------------------------------------------------------------------------------------------
/// A name, in upper case, that belongs to a database or another outside service.
pub open spec fn external_service_name(k: Seq<char>) -> bool {
    ||| contains(k, "DB"@)
    ||| contains(k, "DATABASE"@)
    ||| contains(k, "MYSQL"@)
    ||| contains(k, "POSTGRES"@)
    ||| contains(k, "POSTGRESQL"@)
    ||| contains(k, "REDIS"@)
    ||| contains(k, "SEEKDB"@)
    ||| contains(k, "OCEANBASE"@)
    ||| contains(k, "OBSERVER"@)
    ||| contains(k, "MONGO"@)
    ||| contains(k, "ELASTIC"@)
    ||| contains(k, "QDRANT"@)
}

/// A variable holds the port of a local service when its name is `PORT` or ends in `_PORT` and
/// names no outside service.
pub open spec fn local_port_key(key: Seq<char>) -> bool {
    let k = ascii_upper(key);
    (k == "PORT"@ || ends_with(k, "_PORT"@)) && !external_service_name(k)
}

/// Whether a variable holds the port of a local service.
pub fn is_local_service_port_key(key: &str) -> (r: bool)
    ensures
        r == local_port_key(key@),
{
    let upper: String = to_ascii_upper(key);
    let k: &str = upper.as_str();
    if !same(k, "PORT") && !has_suffix(k, "_PORT") {
        return false;
    }
    !(text_has(k, "DB") || text_has(k, "DATABASE") || text_has(k, "MYSQL") || text_has(k, "POSTGRES") || text_has(
        k,
        "POSTGRESQL",
    ) || text_has(k, "REDIS") || text_has(k, "SEEKDB") || text_has(k, "OCEANBASE") || text_has(k, "OBSERVER") || text_has(
        k,
        "MONGO",
    ) || text_has(k, "ELASTIC") || text_has(k, "QDRANT"))
}

/// A URL of a service on this machine.
pub open spec fn local_url(value: Seq<char>) -> bool {
    ||| starts_with(value, "http://127.0.0.1"@)
    ||| starts_with(value, "https://127.0.0.1"@)
    ||| starts_with(value, "http://localhost"@)
    ||| starts_with(value, "https://localhost"@)
    ||| starts_with(value, "http://0.0.0.0"@)
    ||| starts_with(value, "https://0.0.0.0"@)
    ||| starts_with(value, "http://[::1]"@)
    ||| starts_with(value, "https://[::1]"@)
}

pub fn is_local_url(value: &str) -> (r: bool)
    ensures
        r == local_url(value@),
{
    has_prefix(value, "http://127.0.0.1") || has_prefix(value, "https://127.0.0.1") || has_prefix(
        value,
        "http://localhost",
    ) || has_prefix(value, "https://localhost") || has_prefix(value, "http://0.0.0.0")
        || has_prefix(value, "https://0.0.0.0") || has_prefix(value, "http://[::1]") || has_prefix(
        value,
        "https://[::1]",
    )
}

/// The port that a value holds.
pub open spec fn port_value(value: Seq<char>) -> Option<nat> {
    parse_unsigned(trim(value), 65535)
}

pub fn port_of_value(value: &str) -> (r: Option<u16>)
    ensures
        match r {
            Some(port) => port_value(value@) == Some(port as nat),
            None => port_value(value@) is None,
        },
{
    let t: String = trimmed(value);
    parse_u16(t.as_str())
}

// ---------------------------------------------------------------------------------------------
// The port of a URL variable
// ---------------------------------------------------------------------------------------------
/// Among the named ports whose name stands in `key`, the one with the longest name; of equally
/// long names the last.
pub open spec fn longest_named(ports: Seq<(Seq<char>, u16)>, key: Seq<char>) -> Option<
    (Seq<char>, u16),
>
    decreases ports.len(),
{
    if ports.len() == 0 {
        None
    } else {
        let best = longest_named(ports.drop_last(), key);
        let p = ports.last();
        if contains(key, p.0) && (match best {
            Some(b) => byte_len(b.0) <= byte_len(p.0),
            None => true,
        }) {
            Some(p)
        } else {
            best
        }
    }
}

/// The position of the longest named port whose name stands in `key`.
pub fn longest_named_port(ports: &Vec<(String, u16)>, key: &str) -> (r: Option<u16>)
    ensures
        r == (match longest_named(port_views(ports@), key@) {
            Some(p) => Some(p.1),
            None => None,
        }),
{
    let mut best: Option<usize> = None;
    let mut i: usize = 0;
    proof {
        assert(port_views(ports@).take(0) =~= Seq::<(Seq<char>, u16)>::empty());
    }
    while i < ports.len()
        invariant
            i <= ports@.len(),
            match best {
                Some(b) => b < i && longest_named(port_views(ports@).take(i as int), key@) == Some(
                    port_views(ports@)[b as int],
                ),
                None => longest_named(port_views(ports@).take(i as int), key@) is None,
            },
        decreases ports@.len() - i,
    {
        proof {
            assert(port_views(ports@).take(i + 1).drop_last() =~= port_views(ports@).take(
                i as int,
            ));
            assert(port_views(ports@).take(i + 1).last() == port_views(ports@)[i as int]);
        }
        if text_has(key, ports[i].0.as_str()) {
            match best {
                Some(b) => {
                    if utf8_length(ports[b].0.as_str()) <= utf8_length(ports[i].0.as_str()) {
                        best = Some(i);
                    }
                },
                None => {
                    best = Some(i);
                },
            }
        }
        i += 1;
    }
    proof {
        assert(port_views(ports@).take(i as int) =~= port_views(ports@));
    }
    match best {
        Some(b) => Some(ports[b].1),
        None => None,
    }
}

/// A URL variable of this machine with the port that its name calls for.
pub open spec fn with_named_port(
    entry: EnvVariableView,
    ports: Seq<(Seq<char>, u16)>,
) -> EnvVariableView {
    if contains(ascii_upper(entry.key), "URL"@) && local_url(entry.value) {
        match longest_named(ports, ascii_upper(entry.key)) {
            Some(p) => with_url(entry, url_with_port(entry.value, p.1 as nat)),
            None => entry,
        }
    } else {
        entry
    }
}

/// A variable with a new value, marked as modified where the value differs.
pub open spec fn with_url(entry: EnvVariableView, value: Seq<char>) -> EnvVariableView {
    EnvVariableView { value, modified: entry.modified || value != entry.value, ..entry }
}

/// Gives a variable a new value, and marks it as modified where the value differs.
pub fn set_url(entry: &mut EnvVariable, value: String)
    ensures
        final(entry)@ == with_url(old(entry)@, value@),
{
    if !same(value.as_str(), entry.value.as_str()) {
        entry.value = value;
        entry.modified = true;
    }
    proof {
        assert(entry@ =~= with_url(old(entry)@, value@));
    }
}

/// Gives the URL variables of this machine the ports that their names call for.
pub fn apply_named_ports(entries: &Vec<EnvVariable>, ports: &Vec<(String, u16)>) -> (out: Vec<
    EnvVariable,
>)
    ensures
        env_views(out@) == env_views(entries@).map_values(
            |e: EnvVariableView| with_named_port(e, port_views(ports@)),
        ),
{
    let mut out: Vec<EnvVariable> = Vec::new();
    let mut i: usize = 0;
    while i < entries.len()
        invariant
            i <= entries@.len(),
            out@.len() == i,
            forall|k: int|
                0 <= k < i ==> (#[trigger] out@[k])@ == with_named_port(
                    entries@[k]@,
                    port_views(ports@),
                ),
        decreases entries@.len() - i,
    {
        let mut entry: EnvVariable = entries[i].clone();
        let upper: String = to_ascii_upper(entries[i].key.as_str());
        if text_has(upper.as_str(), "URL") && is_local_url(entries[i].value.as_str()) {
            match longest_named_port(ports, upper.as_str()) {
                Some(port) => {
                    let value: String = replace_url_port(entries[i].value.as_str(), port);
                    set_url(&mut entry, value);
                },
                None => {},
            }
        }
        out.push(entry);
        i += 1;
    }
    proof {
        assert(env_views(out@) =~= env_views(entries@).map_values(
            |e: EnvVariableView| with_named_port(e, port_views(ports@)),
        ));
    }
    out
}

// ---------------------------------------------------------------------------------------------
// Assigning a port
// ---------------------------------------------------------------------------------------------
/// The first spare port that is not taken, and the spare ports behind it.
pub open spec fn next_spare(spare: Seq<u16>, taken: Seq<u16>) -> Option<(u16, Seq<u16>)>
    decreases spare.len(),
{
    if spare.len() == 0 {
        None
    } else if taken.contains(spare[0]) {
        next_spare(spare.skip(1), taken)
    } else {
        Some((spare[0], spare.skip(1)))
    }
}

/// The outcome of assigning one port: the port, the ports that are now taken, and the spare ports
/// that are left.
#[verifier::ext_equal]
pub struct Assigned {
    pub port: u16,
    pub taken: Seq<u16>,
    pub spare: Seq<u16>,
}

/// A wanted port is kept where it is free and not taken; else the next spare port takes its place.
pub open spec fn assign(wanted: u16, free: Seq<u16>, taken: Seq<u16>, spare: Seq<u16>) -> Option<
    Assigned,
> {
    if wanted > 0 && free.contains(wanted) && !taken.contains(wanted) {
        Some(Assigned { port: wanted, taken: taken.push(wanted), spare })
    } else {
        match next_spare(spare, taken) {
            Some((port, rest)) => Some(Assigned { port, taken: taken.push(port), spare: rest }),
            None => None,
        }
    }
}

/// Whether `port` stands in the list.
pub fn has_port(list: &Vec<u16>, port: u16) -> (r: bool)
    ensures
        r == list@.contains(port),
{
    let mut i: usize = 0;
    while i < list.len()
        invariant
            i <= list@.len(),
            forall|k: int| 0 <= k < i ==> list@[k] != port,
        decreases list@.len() - i,
    {
        if list[i] == port {
            return true;
        }
        i += 1;
    }
    false
}

/// Assigns one port. `used` counts the spare ports that are spent.
pub fn assign_port(
    wanted: u16,
    free: &Vec<u16>,
    taken: &mut Vec<u16>,
    spare: &Vec<u16>,
    used: &mut usize,
) -> (r: Option<u16>)
    requires
        *old(used) <= spare@.len(),
    ensures
        *final(used) <= spare@.len(),
        match r {
            Some(port) => assign(wanted, free@, old(taken)@, spare@.skip(*old(used) as int))
                == Some(
                Assigned { port, taken: final(taken)@, spare: spare@.skip(*final(used) as int) },
            ),
            None => assign(wanted, free@, old(taken)@, spare@.skip(*old(used) as int)) is None,
        },
{
    if wanted > 0 && has_port(free, wanted) && !has_port(taken, wanted) {
        taken.push(wanted);
        return Some(wanted);
    }
    while *used < spare.len()
        invariant
            *used <= spare@.len(),
            taken@ == old(taken)@,
            !(wanted > 0 && free@.contains(wanted) && !taken@.contains(wanted)),
            next_spare(spare@.skip(*old(used) as int), taken@) == next_spare(
                spare@.skip(*used as int),
                taken@,
            ),
        decreases spare@.len() - *used,
    {
        let port: u16 = spare[*used];
        proof {
            assert(spare@.skip(*used as int).skip(1) =~= spare@.skip(*used + 1));
            assert(spare@.skip(*used as int)[0] == port);
        }
        *used = *used + 1;
        if !has_port(taken, port) {
            taken.push(port);
            return Some(port);
        }
    }
    None
}

// ---------------------------------------------------------------------------------------------
// Conflicts between the variables of a file
// ---------------------------------------------------------------------------------------------
/// How far the variables of a file have been gone through.
#[verifier::ext_equal]
pub struct PortRun {
    pub entries: Seq<EnvVariableView>,
    pub changes: Seq<PortChangeView>,
    pub taken: Seq<u16>,
    pub spare: Seq<u16>,
}

/// Goes through one more variable. A variable that holds no local port stays as it is.
pub open spec fn port_run_step(
    run: PortRun,
    entry: EnvVariableView,
    free: Seq<u16>,
) -> Option<PortRun> {
    if !local_port_key(entry.key) || port_value(entry.value) is None {
        Some(PortRun { entries: run.entries.push(entry), ..run })
    } else {
        let port = port_value(entry.value)->0 as u16;
        match assign(port, free, run.taken, run.spare) {
            None => None,
            Some(a) => Some(
                if port > 0 && free.contains(port) && !run.taken.contains(port) {
                    PortRun { entries: run.entries.push(entry), taken: a.taken, ..run }
                } else {
                    PortRun {
                        entries: run.entries.push(
                            EnvVariableView {
                                value: decimal(a.port as nat),
                                modified: true,
                                ..entry
                            },
                        ),
                        changes: run.changes.push(
                            PortChangeView { key: entry.key, old_port: port, new_port: a.port },
                        ),
                        taken: a.taken,
                        spare: a.spare,
                    }
                },
            ),
        }
    }
}

/// Goes through the variables from the first to the last.
pub open spec fn port_run(
    entries: Seq<EnvVariableView>,
    free: Seq<u16>,
    spare: Seq<u16>,
) -> Option<PortRun>
    decreases entries.len(),
{
    if entries.len() == 0 {
        Some(PortRun { entries: seq![], changes: seq![], taken: seq![], spare })
    } else {
        match port_run(entries.drop_last(), free, spare) {
            Some(run) => port_run_step(run, entries.last(), free),
            None => None,
        }
    }
}

/// How many changes moved this port.
pub open spec fn moved_count(changes: Seq<PortChangeView>, port: u16) -> nat
    decreases changes.len(),
{
    if changes.len() == 0 {
        0
    } else {
        moved_count(changes.drop_last(), port) + (if changes.last().old_port == port {
            1nat
        } else {
            0nat
        })
    }
}

/// `value` with the moved port in place of the old one behind a host of this machine.
pub open spec fn with_moved_port(value: Seq<char>, old_port: u16, new_port: u16) -> Seq<char> {
    let from = ":"@ + decimal(old_port as nat);
    let to = ":"@ + decimal(new_port as nat);
    let v1 = replace_all(value, "127.0.0.1"@ + from, "127.0.0.1"@ + to);
    let v2 = replace_all(v1, "localhost"@ + from, "localhost"@ + to);
    let v3 = replace_all(v2, "0.0.0.0"@ + from, "0.0.0.0"@ + to);
    replace_all(v3, "[::1]"@ + from, "[::1]"@ + to)
}

/// A URL variable follows a change. Where several changes moved the same port, only a variable
/// whose name holds the name of the changed one does.
pub open spec fn follow_change(
    entry: EnvVariableView,
    change: PortChangeView,
    shared: bool,
) -> EnvVariableView {
    let k = ascii_upper(entry.key);
    if contains(k, "URL"@) && (!shared || contains(k, trim_end_all(change.key, "_PORT"@))) {
        with_url(entry, with_moved_port(entry.value, change.old_port, change.new_port))
    } else {
        entry
    }
}

/// A variable after it has followed the first `n` changes.
pub open spec fn follow_changes(
    entry: EnvVariableView,
    changes: Seq<PortChangeView>,
    n: nat,
) -> EnvVariableView
    decreases n,
{
    if n == 0 {
        entry
    } else {
        let change = changes[n - 1];
        follow_change(
            follow_changes(entry, changes, (n - 1) as nat),
            change,
            moved_count(changes, change.old_port) > 1,
        )
    }
}

/// The local ports that the variables hold, under the names of the variables without `_PORT`.
pub open spec fn plain_ports(entries: Seq<EnvVariableView>) -> Seq<(Seq<char>, u16)>
    decreases entries.len(),
{
    if entries.len() == 0 {
        seq![]
    } else {
        let e = entries.last();
        let ports = plain_ports(entries.drop_last());
        match port_value(e.value) {
            Some(port) => if local_port_key(e.key) {
                ports.push((trim_end_all(e.key, "_PORT"@), port as u16))
            } else {
                ports
            },
            None => ports,
        }
    }
}

/// The variables once every conflict is resolved and every local URL follows its port, and the
/// changes that this took; nothing where the spare ports run out.
pub open spec fn resolved_conflicts(
    entries: Seq<EnvVariableView>,
    free: Seq<u16>,
    spare: Seq<u16>,
) -> Option<(Seq<EnvVariableView>, Seq<PortChangeView>)> {
    match port_run(entries, free, spare) {
        None => None,
        Some(run) => {
            let followed = run.entries.map_values(
                |e: EnvVariableView| follow_changes(e, run.changes, run.changes.len()),
            );
            let ports = plain_ports(followed);
            Some(
                (
                    followed.map_values(|e: EnvVariableView| with_named_port(e, ports)),
                    run.changes,
                ),
            )
        },
    }
}

fn moved_port_in(value: &str, old_port: u16, new_port: u16) -> (out: String)
    ensures
        out@ == with_moved_port(value@, old_port, new_port),
{
    proof {
        reveal_strlit(":");
    }
    let from: String = owned(":").concat(decimal_text(old_port as u64).as_str());
    let to: String = owned(":").concat(decimal_text(new_port as u64).as_str());
    let v1: String = host_port_in(value, "127.0.0.1", from.as_str(), to.as_str());
    let v2: String = host_port_in(v1.as_str(), "localhost", from.as_str(), to.as_str());
    let v3: String = host_port_in(v2.as_str(), "0.0.0.0", from.as_str(), to.as_str());
    host_port_in(v3.as_str(), "[::1]", from.as_str(), to.as_str())
}

fn host_port_in(value: &str, host: &str, from: &str, to: &str) -> (out: String)
    requires
        from@.len() > 0,
    ensures
        out@ == replace_all(value@, host@ + from@, host@ + to@),
{
    let old_text: String = owned(host).concat(from);
    let new_text: String = owned(host).concat(to);
    replaced(value, old_text.as_str(), new_text.as_str())
}

fn count_moved(changes: &Vec<PortChange>, port: u16) -> (n: usize)
    ensures
        n == moved_count(change_views(changes@), port),
{
    let mut n: usize = 0;
    let mut i: usize = 0;
    proof {
        assert(change_views(changes@).take(0) =~= Seq::<PortChangeView>::empty());
    }
    while i < changes.len()
        invariant
            i <= changes@.len(),
            n <= i,
            n == moved_count(change_views(changes@).take(i as int), port),
        decreases changes@.len() - i,
    {
        proof {
            assert(change_views(changes@).take(i + 1).drop_last() =~= change_views(changes@).take(
                i as int,
            ));
            assert(change_views(changes@).take(i + 1).last() == changes@[i as int]@);
        }
        if changes[i].old_port == port {
            n += 1;
        }
        i += 1;
    }
    proof {
        assert(change_views(changes@).take(i as int) =~= change_views(changes@));
    }
    n
}

fn followed_entry(entry: &EnvVariable, changes: &Vec<PortChange>) -> (out: EnvVariable)
    ensures
        out@ == follow_changes(entry@, change_views(changes@), changes@.len()),
{
    let mut out: EnvVariable = entry.clone();
    let mut i: usize = 0;
    while i < changes.len()
        invariant
            i <= changes@.len(),
            out@ == follow_changes(entry@, change_views(changes@), i as nat),
        decreases changes@.len() - i,
    {
        let shared: bool = count_moved(changes, changes[i].old_port) > 1;
        let upper: String = to_ascii_upper(out.key.as_str());
        let name: String = trimmed_end_all(changes[i].key.as_str(), "_PORT");
        if text_has(upper.as_str(), "URL") && (!shared || text_has(upper.as_str(), name.as_str())) {
            let value: String = moved_port_in(
                out.value.as_str(),
                changes[i].old_port,
                changes[i].new_port,
            );
            set_url(&mut out, value);
        }
        i += 1;
    }
    out
}

fn plain_port_values(entries: &Vec<EnvVariable>) -> (out: Vec<(String, u16)>)
    ensures
        port_views(out@) == plain_ports(env_views(entries@)),
{
    let mut out: Vec<(String, u16)> = Vec::new();
    let mut i: usize = 0;
    proof {
        assert(env_views(entries@).take(0) =~= Seq::<EnvVariableView>::empty());
        assert(port_views(out@) =~= Seq::<(Seq<char>, u16)>::empty());
    }
    while i < entries.len()
        invariant
            i <= entries@.len(),
            port_views(out@) == plain_ports(env_views(entries@).take(i as int)),
        decreases entries@.len() - i,
    {
        let ghost before = port_views(out@);
        proof {
            assert(env_views(entries@).take(i + 1).drop_last() =~= env_views(entries@).take(
                i as int,
            ));
            assert(env_views(entries@).take(i + 1).last() == entries@[i as int]@);
        }
        if is_local_service_port_key(entries[i].key.as_str()) {
            match port_of_value(entries[i].value.as_str()) {
                Some(port) => {
                    let name: String = trimmed_end_all(entries[i].key.as_str(), "_PORT");
                    out.push((name, port));
                    proof {
                        assert(port_views(out@) =~= before.push((name@, port)));
                    }
                },
                None => {},
            }
        }
        i += 1;
    }
    proof {
        assert(env_views(entries@).take(i as int) =~= env_views(entries@));
    }
    out
}

/// The ports that [`resolve_port_conflicts`] needs probed.
pub open spec fn wanted_ports(entries: Seq<EnvVariableView>) -> Seq<u16>
    decreases entries.len(),
{
    if entries.len() == 0 {
        seq![]
    } else {
        let e = entries.last();
        let ports = wanted_ports(entries.drop_last());
        match port_value(e.value) {
            Some(port) => if local_port_key(e.key) && port > 0 {
                ports.push(port as u16)
            } else {
                ports
            },
            None => ports,
        }
    }
}

/// The ports to probe before the conflicts between the variables are resolved.
pub fn local_service_ports(entries: &Vec<EnvVariable>) -> (out: Vec<u16>)
    ensures
        out@ == wanted_ports(env_views(entries@)),
{
    let mut out: Vec<u16> = Vec::new();
    let mut i: usize = 0;
    proof {
        assert(env_views(entries@).take(0) =~= Seq::<EnvVariableView>::empty());
    }
    while i < entries.len()
        invariant
            i <= entries@.len(),
            out@ == wanted_ports(env_views(entries@).take(i as int)),
        decreases entries@.len() - i,
    {
        proof {
            assert(env_views(entries@).take(i + 1).drop_last() =~= env_views(entries@).take(
                i as int,
            ));
            assert(env_views(entries@).take(i + 1).last() == entries@[i as int]@);
        }
        if is_local_service_port_key(entries[i].key.as_str()) {
            match port_of_value(entries[i].value.as_str()) {
                Some(port) => {
                    if port > 0 {
                        out.push(port);
                    }
                },
                None => {},
            }
        }
        i += 1;
    }
    proof {
        assert(env_views(entries@).take(i as int) =~= env_views(entries@));
    }
    out
}

/// Moves local service ports that are not free, or that an earlier variable holds, to spare ports,
/// and lets the URLs of this machine follow. Ports of outside services stay.
pub fn resolve_port_conflicts(
    entries: &mut Vec<EnvVariable>,
    free: &Vec<u16>,
    spare: &Vec<u16>,
) -> (r: Result<Vec<PortChange>, NoSparePort>)
    ensures
        match r {
            Ok(changes) => resolved_conflicts(env_views(old(entries)@), free@, spare@) == Some(
                (env_views(final(entries)@), change_views(changes@)),
            ),
            Err(_) => resolved_conflicts(env_views(old(entries)@), free@, spare@) is None
                && final(entries)@ == old(entries)@,
        },
{
    let ghost start = env_views(entries@);
    let mut placed: Vec<EnvVariable> = Vec::new();
    let mut changes: Vec<PortChange> = Vec::new();
    let mut taken: Vec<u16> = Vec::new();
    let mut used: usize = 0;
    let mut i: usize = 0;
    proof {
        assert(start.take(0) =~= Seq::<EnvVariableView>::empty());
        assert(env_views(placed@) =~= Seq::<EnvVariableView>::empty());
        assert(change_views(changes@) =~= Seq::<PortChangeView>::empty());
        assert(spare@.skip(0) =~= spare@);
    }
    while i < entries.len()
        invariant
            entries@ == old(entries)@,
            start == env_views(entries@),
            i <= entries@.len(),
            used <= spare@.len(),
            port_run(start.take(i as int), free@, spare@) == Some(
                PortRun {
                    entries: env_views(placed@),
                    changes: change_views(changes@),
                    taken: taken@,
                    spare: spare@.skip(used as int),
                },
            ),
        decreases entries@.len() - i,
    {
        let ghost before = PortRun {
            entries: env_views(placed@),
            changes: change_views(changes@),
            taken: taken@,
            spare: spare@.skip(used as int),
        };
        let ghost current = entries@[i as int]@;
        proof {
            assert(start.take(i + 1).drop_last() =~= start.take(i as int));
            assert(start.take(i + 1).last() == current);
        }
        let mut entry: EnvVariable = entries[i].clone();
        if is_local_service_port_key(entries[i].key.as_str()) {
            match port_of_value(entries[i].value.as_str()) {
                Some(port) => {
                    let kept: bool = port > 0 && has_port(free, port) && !has_port(&taken, port);
                    match assign_port(port, free, &mut taken, spare, &mut used) {
                        Some(new_port) => {
                            if !kept {
                                entry.value = decimal_text(new_port as u64);
                                entry.modified = true;
                                let change: PortChange = PortChange {
                                    key: entries[i].key.clone(),
                                    old_port: port,
                                    new_port,
                                };
                                changes.push(change);
                                proof {
                                    assert(change_views(changes@) =~= before.changes.push(change@));
                                }
                            }
                        },
                        None => {
                            proof {
                                lemma_port_run_none(start, free@, spare@, i + 1);
                            }
                            return Err(NoSparePort);
                        },
                    }
                },
                None => {},
            }
        }
        placed.push(entry);
        proof {
            assert(env_views(placed@) =~= before.entries.push(entry@));
        }
        i += 1;
    }
    proof {
        assert(start.take(i as int) =~= start);
    }
    let ghost run = port_run(start, free@, spare@)->0;
    let mut followed: Vec<EnvVariable> = Vec::new();
    let mut k: usize = 0;
    while k < placed.len()
        invariant
            k <= placed@.len(),
            followed@.len() == k,
            forall|j: int|
                0 <= j < k ==> (#[trigger] followed@[j])@ == follow_changes(
                    placed@[j]@,
                    change_views(changes@),
                    changes@.len(),
                ),
        decreases placed@.len() - k,
    {
        followed.push(followed_entry(&placed[k], &changes));
        k += 1;
    }
    proof {
        assert(env_views(followed@) =~= run.entries.map_values(
            |e: EnvVariableView| follow_changes(e, run.changes, run.changes.len()),
        ));
    }
    let ports: Vec<(String, u16)> = plain_port_values(&followed);
    *entries = apply_named_ports(&followed, &ports);
    Ok(changes)
}

/// Once a prefix of the variables has used up the spare ports, so has the whole.
proof fn lemma_port_run_none(
    entries: Seq<EnvVariableView>,
    free: Seq<u16>,
    spare: Seq<u16>,
    k: int,
)
    requires
        0 <= k <= entries.len(),
        port_run(entries.take(k), free, spare) is None,
    ensures
        port_run(entries, free, spare) is None,
    decreases entries.len() - k,
{
    if k == entries.len() {
        assert(entries.take(k) =~= entries);
    } else {
        assert(entries.take(k + 1).drop_last() =~= entries.take(k));
        lemma_port_run_none(entries, free, spare, k + 1);
    }
}

// ---------------------------------------------------------------------------------------------
// Ports of the services of a lifecycle manifest
// ---------------------------------------------------------------------------------------------
/// The services of a list: names and URLs.
pub open spec fn service_views(list: Seq<(String, String)>) -> Seq<(Seq<char>, Seq<char>)> {
    list.map_values(|s: (String, String)| (s.0@, s.1@))
}

/// The ports in the URLs of services, under the names of the services in upper case.
pub open spec fn service_ports(services: Seq<(Seq<char>, Seq<char>)>) -> Seq<(Seq<char>, u16)>
    decreases services.len(),
{
    if services.len() == 0 {
        seq![]
    } else {
        let ports = service_ports(services.drop_last());
        match url_port(services.last().1) {
            Some(port) => ports.push((ascii_upper(services.last().0), port as u16)),
            None => ports,
        }
    }
}

/// The ports of services.
pub fn lifecycle_ports(services: &Vec<(String, String)>) -> (out: Vec<(String, u16)>)
    ensures
        port_views(out@) == service_ports(service_views(services@)),
{
    let mut out: Vec<(String, u16)> = Vec::new();
    let mut i: usize = 0;
    let ghost all = service_views(services@);
    proof {
        assert(all.take(0) =~= Seq::<(Seq<char>, Seq<char>)>::empty());
        assert(port_views(out@) =~= Seq::<(Seq<char>, u16)>::empty());
    }
    while i < services.len()
        invariant
            i <= services@.len(),
            all == service_views(services@),
            port_views(out@) == service_ports(all.take(i as int)),
        decreases services@.len() - i,
    {
        let ghost before = port_views(out@);
        proof {
            assert(all.take(i + 1).drop_last() =~= all.take(i as int));
            assert(all.take(i + 1).last() == all[i as int]);
        }
        match extract_url_port(services[i].1.as_str()) {
            Some(port) => {
                let name: String = to_ascii_upper(services[i].0.as_str());
                out.push((name, port));
                proof {
                    assert(port_views(out@) =~= before.push((name@, port)));
                }
            },
            None => {},
        }
        i += 1;
    }
    proof {
        assert(all.take(i as int) =~= all);
    }
    out
}

/// Keeps the URL variables of a file in step with the ports in the URLs of the services, also
/// where the file has no variable for such a port.
pub fn sync_env_urls_from_lifecycle(
    services: &Vec<(String, String)>,
    entries: &mut Vec<EnvVariable>,
)
    ensures
        env_views(final(entries)@) == env_views(old(entries)@).map_values(
            |e: EnvVariableView| with_named_port(e, service_ports(service_views(services@))),
        ),
{
    let ports: Vec<(String, u16)> = lifecycle_ports(services);
    *entries = apply_named_ports(entries, &ports);
}

/// The ports above zero in the URLs of services.
pub open spec fn assigned_ports(services: Seq<(Seq<char>, Seq<char>)>) -> Seq<u16>
    decreases services.len(),
{
    if services.len() == 0 {
        seq![]
    } else {
        let ports = assigned_ports(services.drop_last());
        match url_port(services.last().1) {
            Some(port) => if port > 0 {
                ports.push(port as u16)
            } else {
                ports
            },
            None => ports,
        }
    }
}

/// The ports that services of other instances hold.
pub fn collect_assigned_ports(services: &Vec<(String, String)>) -> (out: Vec<u16>)
    ensures
        out@ == assigned_ports(service_views(services@)),
{
    let mut out: Vec<u16> = Vec::new();
    let mut i: usize = 0;
    let ghost all = service_views(services@);
    proof {
        assert(all.take(0) =~= Seq::<(Seq<char>, Seq<char>)>::empty());
    }
    while i < services.len()
        invariant
            i <= services@.len(),
            all == service_views(services@),
            out@ == assigned_ports(all.take(i as int)),
        decreases services@.len() - i,
    {
        proof {
            assert(all.take(i + 1).drop_last() =~= all.take(i as int));
            assert(all.take(i + 1).last() == all[i as int]);
        }
        match extract_url_port(services[i].1.as_str()) {
            Some(port) => {
                if port > 0 {
                    out.push(port);
                }
            },
            None => {},
        }
        i += 1;
    }
    proof {
        assert(all.take(i as int) =~= all);
    }
    out
}

// ---------------------------------------------------------------------------------------------
// Keeping a second environment file in step with the root file
// ---------------------------------------------------------------------------------------------
/// The local ports that the variables hold, under the names of the variables in upper case without
/// `_PORT`.
pub open spec fn local_ports(entries: Seq<EnvVariableView>) -> Seq<(Seq<char>, u16)>
    decreases entries.len(),
{
    if entries.len() == 0 {
        seq![]
    } else {
        let e = entries.last();
        let ports = local_ports(entries.drop_last());
        match port_value(e.value) {
            Some(port) => if local_port_key(e.key) {
                ports.push((trim_end_all(ascii_upper(e.key), "_PORT"@), port as u16))
            } else {
                ports
            },
            None => ports,
        }
    }
}

/// The local ports that the variables hold.
pub fn local_env_port_values(entries: &Vec<EnvVariable>) -> (out: Vec<(String, u16)>)
    ensures
        port_views(out@) == local_ports(env_views(entries@)),
{
    let mut out: Vec<(String, u16)> = Vec::new();
    let mut i: usize = 0;
    proof {
        assert(env_views(entries@).take(0) =~= Seq::<EnvVariableView>::empty());
        assert(port_views(out@) =~= Seq::<(Seq<char>, u16)>::empty());
    }
    while i < entries.len()
        invariant
            i <= entries@.len(),
            port_views(out@) == local_ports(env_views(entries@).take(i as int)),
        decreases entries@.len() - i,
    {
        let ghost before = port_views(out@);
        proof {
            assert(env_views(entries@).take(i + 1).drop_last() =~= env_views(entries@).take(
                i as int,
            ));
            assert(env_views(entries@).take(i + 1).last() == entries@[i as int]@);
        }
        if is_local_service_port_key(entries[i].key.as_str()) {
            match port_of_value(entries[i].value.as_str()) {
                Some(port) => {
                    let upper: String = to_ascii_upper(entries[i].key.as_str());
                    let name: String = trimmed_end_all(upper.as_str(), "_PORT");
                    out.push((name, port));
                    proof {
                        assert(port_views(out@) =~= before.push((name@, port)));
                    }
                },
                None => {},
            }
        }
        i += 1;
    }
    proof {
        assert(env_views(entries@).take(i as int) =~= env_views(entries@));
    }
    out
}

/// The last entry of a list whose key is `upper` once it is in upper case.
pub open spec fn last_with_upper_key(
    list: Seq<EnvVariableView>,
    upper: Seq<char>,
) -> Option<EnvVariableView>
    decreases list.len(),
{
    if list.len() == 0 {
        None
    } else if ascii_upper(list.last().key) == upper {
        Some(list.last())
    } else {
        last_with_upper_key(list.drop_last(), upper)
    }
}

/// The position of the last entry of a list whose key is `upper` once it is in upper case.
pub fn last_position_of_upper_key(list: &Vec<EnvVariable>, upper: &str) -> (r: Option<usize>)
    ensures
        match r {
            Some(i) => i < list@.len() && last_with_upper_key(env_views(list@), upper@) == Some(
                list@[i as int]@,
            ),
            None => last_with_upper_key(env_views(list@), upper@) is None,
        },
{
    let mut n: usize = list.len();
    proof {
        assert(env_views(list@).take(n as int) =~= env_views(list@));
    }
    while n > 0
        invariant
            n <= list@.len(),
            last_with_upper_key(env_views(list@), upper@) == last_with_upper_key(
                env_views(list@).take(n as int),
                upper@,
            ),
        decreases n,
    {
        proof {
            assert(env_views(list@).take(n as int).drop_last() =~= env_views(list@).take(n - 1));
            assert(env_views(list@).take(n as int).last() == list@[n - 1]@);
        }
        let k: String = to_ascii_upper(list[n - 1].key.as_str());
        if same(k.as_str(), upper) {
            return Some(n - 1);
        }
        n -= 1;
    }
    None
}

/// The position of the first entry of a list whose key is `upper` once it is in upper case.
pub open spec fn index_with_upper_key(
    list: Seq<EnvVariableView>,
    upper: Seq<char>,
    i: int,
) -> Option<int>
    decreases list.len() - i,
{
    if i < 0 || i >= list.len() {
        None
    } else if ascii_upper(list[i].key) == upper {
        Some(i)
    } else {
        index_with_upper_key(list, upper, i + 1)
    }
}

/// The position of the first entry of a list whose key is `upper` once it is in upper case.
pub fn position_of_upper_key(list: &Vec<EnvVariable>, upper: &str) -> (r: Option<usize>)
    ensures
        match r {
            Some(i) => i < list@.len() && index_with_upper_key(env_views(list@), upper@, 0) == Some(
                i as int,
            ),
            None => index_with_upper_key(env_views(list@), upper@, 0) is None,
        },
{
    let mut i: usize = 0;
    while i < list.len()
        invariant
            i <= list@.len(),
            index_with_upper_key(env_views(list@), upper@, 0) == index_with_upper_key(
                env_views(list@),
                upper@,
                i as int,
            ),
        decreases list@.len() - i,
    {
        let k: String = to_ascii_upper(list[i].key.as_str());
        if same(k.as_str(), upper) {
            return Some(i);
        }
        i += 1;
    }
    None
}

/// A variable of a second file in step with the root file: the value of the root variable of the
/// same name, or else the port that its name calls for in a URL of this machine.
pub open spec fn synchronized_entry(
    entry: EnvVariableView,
    root: Seq<EnvVariableView>,
) -> EnvVariableView {
    let k = ascii_upper(entry.key);
    match last_with_upper_key(root, k) {
        Some(source) => EnvVariableView { value: source.value, ..entry },
        None => if local_url(entry.value) {
            match longest_named(local_ports(root), k) {
                Some(p) => EnvVariableView { value: url_with_port(entry.value, p.1 as nat), ..entry },
                None => entry,
            }
        } else {
            entry
        },
    }
}

/// Brings the variables of a second file in step with the root file.
pub fn synchronize_env_entries(target: &mut Vec<EnvVariable>, root: &Vec<EnvVariable>)
    ensures
        env_views(final(target)@) == env_views(old(target)@).map_values(
            |e: EnvVariableView| synchronized_entry(e, env_views(root@)),
        ),
{
    let ports: Vec<(String, u16)> = local_env_port_values(root);
    let mut out: Vec<EnvVariable> = Vec::new();
    let mut i: usize = 0;
    while i < target.len()
        invariant
            i <= target@.len(),
            target@ == old(target)@,
            out@.len() == i,
            port_views(ports@) == local_ports(env_views(root@)),
            forall|k: int|
                0 <= k < i ==> (#[trigger] out@[k])@ == synchronized_entry(
                    target@[k]@,
                    env_views(root@),
                ),
        decreases target@.len() - i,
    {
        let mut entry: EnvVariable = target[i].clone();
        let upper: String = to_ascii_upper(target[i].key.as_str());
        match last_position_of_upper_key(root, upper.as_str()) {
            Some(k) => {
                entry.value = root[k].value.clone();
            },
            None => {
                if is_local_url(target[i].value.as_str()) {
                    match longest_named_port(&ports, upper.as_str()) {
                        Some(port) => {
                            entry.value = replace_url_port(target[i].value.as_str(), port);
                        },
                        None => {},
                    }
                }
            },
        }
        proof {
            assert(entry@ =~= synchronized_entry(target@[i as int]@, env_views(root@)));
        }
        out.push(entry);
        i += 1;
    }
    proof {
        assert(env_views(out@) =~= env_views(old(target)@).map_values(
            |e: EnvVariableView| synchronized_entry(e, env_views(root@)),
        ));
    }
    *target = out;
}

// ---------------------------------------------------------------------------------------------
// Ports that a template describes
// ---------------------------------------------------------------------------------------------
/// `list` with `port` under `name`: in the place that the name has, or else at the end.
pub open spec fn with_port(list: Seq<(Seq<char>, u16)>, name: Seq<char>, port: u16) -> Seq<
    (Seq<char>, u16),
>
    decreases list.len(),
{
    if list.len() == 0 {
        seq![(name, port)]
    } else if list[0].0 == name {
        list.update(0, (name, port))
    } else {
        seq![list[0]] + with_port(list.skip(1), name, port)
    }
}

/// Puts `port` under `name`: in the place that the name has, or else at the end.
pub fn put_port(list: &mut Vec<(String, u16)>, name: &str, port: u16)
    ensures
        port_views(final(list)@) == with_port(port_views(old(list)@), name@, port),
{
    let ghost all = port_views(list@);
    let mut i: usize = 0;
    proof {
        assert(all.skip(0) =~= all);
        assert(all.take(0) + with_port(all, name@, port) =~= with_port(all, name@, port));
    }
    while i < list.len()
        invariant
            list@ == old(list)@,
            i <= list@.len(),
            all == port_views(list@),
            with_port(all, name@, port) == all.take(i as int) + with_port(
                all.skip(i as int),
                name@,
                port,
            ),
        decreases list@.len() - i,
    {
        let ghost rest = all.skip(i as int);
        proof {
            assert(rest[0] == all[i as int]);
            assert(rest.skip(1) =~= all.skip(i + 1));
        }
        if same(list[i].0.as_str(), name) {
            list.set(i, (owned(name), port));
            proof {
                assert(port_views(list@) =~= all.take(i as int) + rest.update(0, (name@, port)));
            }
            return;
        }
        i += 1;
        proof {
            assert(all.take(i as int) + with_port(all.skip(i as int), name@, port) =~= all.take(
                i - 1,
            ) + (seq![rest[0]] + with_port(rest.skip(1), name@, port)));
        }
    }
    list.push((owned(name), port));
    proof {
        assert(all.skip(i as int) =~= Seq::<(Seq<char>, u16)>::empty());
        assert(port_views(list@) =~= all.take(i as int) + seq![(name@, port)]);
    }
}

/// The port that a line of a description gives, where it gives one.
pub open spec fn described_port(line: Seq<char>) -> Option<(Seq<char>, u16)> {
    match split_once(trim(line), ":"@) {
        Some((key, value)) => match port_value(value) {
            Some(port) => if port > 0 && ends_with(ascii_lower(trim(key)), "_port"@) {
                Some((trim(key), port as u16))
            } else {
                None
            },
            None => None,
        },
        None => None,
    }
}

/// The ports that the lines of a description give. A name that comes again keeps its place and
/// takes the later port.
pub open spec fn described_ports(rows: Seq<Seq<char>>) -> Seq<(Seq<char>, u16)>
    decreases rows.len(),
{
    if rows.len() == 0 {
        seq![]
    } else {
        let ports = described_ports(rows.drop_last());
        match described_port(rows.last()) {
            Some((name, port)) => with_port(ports, name, port),
            None => ports,
        }
    }
}

/// The ports in the description of a template.
pub fn parse_describe_ports(output: &str) -> (ports: Vec<(String, u16)>)
    ensures
        port_views(ports@) == described_ports(lines(output@)),
{
    let rows: Vec<String> = text_lines(output);
    let mut ports: Vec<(String, u16)> = Vec::new();
    let mut i: usize = 0;
    proof {
        assert(texts(rows@).take(0) =~= Seq::<Seq<char>>::empty());
        assert(port_views(ports@) =~= Seq::<(Seq<char>, u16)>::empty());
    }
    while i < rows.len()
        invariant
            i <= rows@.len(),
            port_views(ports@) == described_ports(texts(rows@).take(i as int)),
        decreases rows@.len() - i,
    {
        proof {
            assert(texts(rows@).take(i + 1).drop_last() =~= texts(rows@).take(i as int));
            assert(texts(rows@).take(i + 1).last() == rows@[i as int]@);
        }
        let line: String = trimmed(rows[i].as_str());
        match split_text_once(line.as_str(), ":") {
            Some((left, right)) => {
                let key: String = trimmed(left.as_str());
                let lower: String = to_ascii_lower(key.as_str());
                if has_suffix(lower.as_str(), "_port") {
                    match port_of_value(right.as_str()) {
                        Some(port) => {
                            if port > 0 {
                                put_port(&mut ports, key.as_str(), port);
                            }
                        },
                        None => {},
                    }
                }
            },
            None => {},
        }
        i += 1;
    }
    proof {
        assert(texts(rows@).take(i as int) =~= texts(rows@));
    }
    ports
}

/// How far the described ports have been gone through.
#[verifier::ext_equal]
pub struct DescribeRun {
    pub resolved: Seq<(Seq<char>, u16)>,
    pub changes: Seq<PortChangeView>,
    pub taken: Seq<u16>,
    pub spare: Seq<u16>,
}

/// Assigns the described ports from the first to the last.
pub open spec fn describe_run(
    ports: Seq<(Seq<char>, u16)>,
    reserved: Seq<u16>,
    free: Seq<u16>,
    spare: Seq<u16>,
) -> Option<DescribeRun>
    decreases ports.len(),
{
    if ports.len() == 0 {
        Some(DescribeRun { resolved: seq![], changes: seq![], taken: reserved, spare })
    } else {
        match describe_run(ports.drop_last(), reserved, free, spare) {
            None => None,
            Some(run) => {
                let wanted = ports.last().1;
                let key = ascii_upper(ports.last().0);
                match assign(wanted, free, run.taken, run.spare) {
                    None => None,
                    Some(a) => Some(
                        DescribeRun {
                            resolved: with_port(run.resolved, key, a.port),
                            changes: if wanted > 0 && free.contains(wanted) && !run.taken.contains(
                                wanted,
                            ) {
                                run.changes
                            } else {
                                run.changes.push(
                                    PortChangeView { key, old_port: wanted, new_port: a.port },
                                )
                            },
                            taken: a.taken,
                            spare: a.spare,
                        },
                    ),
                }
            },
        }
    }
}

proof fn lemma_describe_run_none(
    ports: Seq<(Seq<char>, u16)>,
    reserved: Seq<u16>,
    free: Seq<u16>,
    spare: Seq<u16>,
    k: int,
)
    requires
        0 <= k <= ports.len(),
        describe_run(ports.take(k), reserved, free, spare) is None,
    ensures
        describe_run(ports, reserved, free, spare) is None,
    decreases ports.len() - k,
{
    if k == ports.len() {
        assert(ports.take(k) =~= ports);
    } else {
        assert(ports.take(k + 1).drop_last() =~= ports.take(k));
        lemma_describe_run_none(ports, reserved, free, spare, k + 1);
    }
}

/// A copy of a list of ports.
pub fn copy_ports(list: &Vec<u16>) -> (out: Vec<u16>)
    ensures
        out@ == list@,
{
    let mut out: Vec<u16> = Vec::new();
    let mut i: usize = 0;
    while i < list.len()
        invariant
            i <= list@.len(),
            out@ == list@.take(i as int),
        decreases list@.len() - i,
    {
        out.push(list[i]);
        i += 1;
        proof {
            assert(out@ =~= list@.take(i as int));
        }
    }
    proof {
        assert(list@.take(i as int) =~= list@);
    }
    out
}

/// Chooses ports for a new instance: the described ones where they are free and not reserved, and
/// spare ports in place of the others.
pub fn resolve_describe_ports(
    describe_output: &str,
    reserved: &Vec<u16>,
    free: &Vec<u16>,
    spare: &Vec<u16>,
) -> (r: Result<(Vec<(String, u16)>, Vec<PortChange>), NoSparePort>)
    ensures
        match (
            r,
            describe_run(described_ports(lines(describe_output@)), reserved@, free@, spare@),
        ) {
            (Ok((resolved, changes)), Some(run)) => port_views(resolved@) == run.resolved
                && change_views(changes@) == run.changes,
            (Err(_), None) => true,
            _ => false,
        },
{
    let ports: Vec<(String, u16)> = parse_describe_ports(describe_output);
    let ghost all = port_views(ports@);
    let mut resolved: Vec<(String, u16)> = Vec::new();
    let mut changes: Vec<PortChange> = Vec::new();
    let mut taken: Vec<u16> = copy_ports(reserved);
    let mut used: usize = 0;
    let mut i: usize = 0;
    proof {
        assert(all.take(0) =~= Seq::<(Seq<char>, u16)>::empty());
        assert(port_views(resolved@) =~= Seq::<(Seq<char>, u16)>::empty());
        assert(change_views(changes@) =~= Seq::<PortChangeView>::empty());
        assert(spare@.skip(0) =~= spare@);
    }
    while i < ports.len()
        invariant
            i <= ports@.len(),
            all == port_views(ports@),
            all == described_ports(lines(describe_output@)),
            used <= spare@.len(),
            describe_run(all.take(i as int), reserved@, free@, spare@) == Some(
                DescribeRun {
                    resolved: port_views(resolved@),
                    changes: change_views(changes@),
                    taken: taken@,
                    spare: spare@.skip(used as int),
                },
            ),
        decreases ports@.len() - i,
    {
        let ghost before = change_views(changes@);
        proof {
            assert(all.take(i + 1).drop_last() =~= all.take(i as int));
            assert(all.take(i + 1).last() == all[i as int]);
        }
        let wanted: u16 = ports[i].1;
        let key: String = to_ascii_upper(ports[i].0.as_str());
        let kept: bool = wanted > 0 && has_port(free, wanted) && !has_port(&taken, wanted);
        match assign_port(wanted, free, &mut taken, spare, &mut used) {
            Some(port) => {
                put_port(&mut resolved, key.as_str(), port);
                if !kept {
                    let change: PortChange = PortChange { key, old_port: wanted, new_port: port };
                    changes.push(change);
                    proof {
                        assert(change_views(changes@) =~= before.push(change@));
                    }
                }
            },
            None => {
                proof {
                    lemma_describe_run_none(all, reserved@, free@, spare@, i + 1);
                }
                return Err(NoSparePort);
            },
        }
        i += 1;
    }
    proof {
        assert(all.take(i as int) =~= all);
    }
    Ok((resolved, changes))
}

// ---------------------------------------------------------------------------------------------
// Reports
// ---------------------------------------------------------------------------------------------
/// One change in words.
pub open spec fn change_line(change: PortChangeView) -> Seq<char> {
    change.key + ": "@ + decimal(change.old_port as nat) + " -> "@ + decimal(
        change.new_port as nat,
    )
}

/// The changes in words, one per line.
pub fn port_change_details(changes: &Vec<PortChange>) -> (out: String)
    ensures
        out@ == join(
            change_views(changes@).map_values(|c: PortChangeView| change_line(c)),
            "\n"@,
        ),
{
    let mut rows: Vec<String> = Vec::new();
    let mut i: usize = 0;
    while i < changes.len()
        invariant
            i <= changes@.len(),
            rows@.len() == i,
            forall|k: int| 0 <= k < i ==> (#[trigger] rows@[k])@ == change_line(changes@[k]@),
        decreases changes@.len() - i,
    {
        let mut row: String = changes[i].key.clone();
        row.append(": ");
        row.append(decimal_text(changes[i].old_port as u64).as_str());
        row.append(" -> ");
        row.append(decimal_text(changes[i].new_port as u64).as_str());
        rows.push(row);
        i += 1;
    }
    proof {
        assert(texts(rows@) =~= change_views(changes@).map_values(
            |c: PortChangeView| change_line(c),
        ));
    }
    join_texts(&rows, "\n")
}

// ---------------------------------------------------------------------------------------------
// Finding free ports
// ---------------------------------------------------------------------------------------------
/// What trying a port gave, on the loopback addresses of IPv4 and IPv6.
#[derive(Debug, PartialEq, Eq, Structural, Clone, Copy)]
pub struct PortProbe {
    /// Somebody answers on the port.
    pub ipv4_answers: bool,
    pub ipv6_answers: bool,
    /// The port can be listened on.
    pub ipv4_binds: bool,
    pub ipv6_binds: bool,
    /// The machine has an IPv6 loopback address.
    pub ipv6_exists: bool,
}

/// A port is available where nobody answers on it and it can be listened on, on IPv4 and, where the
/// machine has it, on IPv6.
pub fn port_is_available(probe: PortProbe) -> (r: bool)
    ensures
        r == (!probe.ipv4_answers && !probe.ipv6_answers && probe.ipv4_binds && (probe.ipv6_exists
            ==> probe.ipv6_binds)),
{
    if probe.ipv4_answers || probe.ipv6_answers {
        return false;
    }
    if !probe.ipv4_binds {
        return false;
    }
    if !probe.ipv6_exists {
        return true;
    }
    probe.ipv6_binds
}

/// How often the machine is asked for a free port.
pub const MAX_PORT_ATTEMPTS: usize = 64;

/// What is done with the ports that the machine gave.
#[derive(Debug)]
pub enum PortSearch {
    Use(u16),
    AskAgain,
    GiveUp(String),
}

/// The first port that was found available.
pub open spec fn first_available(attempts: Seq<(u16, bool)>, i: int) -> Option<u16>
    decreases attempts.len() - i,
{
    if i < 0 || i >= attempts.len() {
        None
    } else if attempts[i].1 {
        Some(attempts[i].0)
    } else {
        first_available(attempts, i + 1)
    }
}

/// Decides on the ports that the machine gave, each with whether it was found available: the first
/// available one is used, and the machine is asked again up to a number of times.
pub fn available_ephemeral_port(attempts: &Vec<(u16, bool)>) -> (r: PortSearch)
    ensures
        match (r, first_available(attempts@, 0)) {
            (PortSearch::Use(port), Some(found)) => port == found,
            (PortSearch::AskAgain, None) => attempts@.len() < MAX_PORT_ATTEMPTS,
            (PortSearch::GiveUp(message), None) => attempts@.len() >= MAX_PORT_ATTEMPTS && message@
                == "Failed to find a free port available for both IPv4 and IPv6"@,
            _ => false,
        },
{
    let mut i: usize = 0;
    while i < attempts.len()
        invariant
            i <= attempts@.len(),
            first_available(attempts@, 0) == first_available(attempts@, i as int),
        decreases attempts@.len() - i,
    {
        if attempts[i].1 {
            return PortSearch::Use(attempts[i].0);
        }
        i += 1;
    }
    if attempts.len() < MAX_PORT_ATTEMPTS {
        PortSearch::AskAgain
    } else {
        PortSearch::GiveUp(owned("Failed to find a free port available for both IPv4 and IPv6"))
    }
}

} // verus!
