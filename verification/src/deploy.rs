//! The environment of an instance: its ports and variables while it is prepared, configured and
//! started.
use vstd::prelude::*;
use vstd::string::*;

use crate::commands::{first_port, first_port_named};
use crate::env::{
    copy_entries, env_views, process_env_value, unquoted, EnvVariable, EnvVariableView,
};
use crate::number::{decimal, decimal_text};
use crate::ports::{
    assign, assign_port, change_views, copy_ports, has_port, index_with_upper_key,
    is_local_service_port_key, last_position_of_upper_key, last_with_upper_key, local_port_key,
    port_of_value, port_value, port_views, position_of_upper_key, put_port, service_views, set_url,
    synchronize_env_entries, synchronized_entry, with_port, with_url, NoSparePort, PortChange,
    PortChangeView,
};
use crate::search::{
    contains, find_any, lemma_find, position_any, text_has, trim, trim_end_all, trimmed,
    trimmed_end_all,
};
use crate::split::{replace_all, replaced, split};
use crate::text::{
    ascii_lower, ascii_upper, join, join_texts, owned, same, texts, to_ascii_lower, to_ascii_upper,
};
use crate::urls::{extract_url_port, replace_url_port, url_port, url_with_port};

verus! {

// ---------------------------------------------------------------------------------------------
// The environment of a process
// ---------------------------------------------------------------------------------------------
/// A variable that no process can have: an equals sign or a zero in its name, or a zero in its value.
pub open spec fn unusable(entry: EnvVariableView) -> bool {
    find_any(entry.key, "=\0"@) is Some || contains(entry.value, "\0"@)
}

/// The pairs of a list.
pub open spec fn pair_views(list: Seq<(String, String)>) -> Seq<(Seq<char>, Seq<char>)> {
    list.map_values(|p: (String, String)| (p.0@, p.1@))
}

/// The first variable that no process can have.
pub open spec fn first_unusable(entries: Seq<EnvVariableView>, i: int) -> Option<int>
    decreases entries.len() - i,
{
    if i < 0 || i >= entries.len() {
        None
    } else if unusable(entries[i]) {
        Some(i)
    } else {
        first_unusable(entries, i + 1)
    }
}

/// The variables that a process of an instance gets from its environment file, without the quotes
/// round their values. Refuses a file with a variable that no process can have.
pub fn apply_instance_environment(entries: &Vec<EnvVariable>) -> (r: Result<
    Vec<(String, String)>,
    String,
>)
    ensures
        match r {
            Ok(pairs) => first_unusable(env_views(entries@), 0) is None && pair_views(pairs@)
                == env_views(entries@).map_values(
                |e: EnvVariableView| (e.key, unquoted(e.value)),
            ),
            Err(message) => first_unusable(env_views(entries@), 0) matches Some(k) && message@
                == "Instance .env contains invalid variable: "@ + entries@[k].key@,
        },
{
    let ghost all = env_views(entries@);
    let mut pairs: Vec<(String, String)> = Vec::new();
    let mut i: usize = 0;
    while i < entries.len()
        invariant
            i <= entries@.len(),
            all == env_views(entries@),
            first_unusable(all, 0) == first_unusable(all, i as int),
            pairs@.len() == i,
            forall|k: int|
                0 <= k < i ==> (#[trigger] pairs@[k]).0@ == entries@[k].key@ && pairs@[k].1@
                    == unquoted(entries@[k].value@),
        decreases entries@.len() - i,
    {
        proof {
            assert(all[i as int] == entries@[i as int]@);
        }
        let bad_key: bool = match position_any(entries[i].key.as_str(), "=\0") {
            Some(_) => true,
            None => false,
        };
        if bad_key || text_has(entries[i].value.as_str(), "\0") {
            return Err(
                owned("Instance .env contains invalid variable: ").concat(entries[i].key.as_str()),
            );
        }
        let value: String = process_env_value(entries[i].value.as_str());
        pairs.push((entries[i].key.clone(), value));
        i += 1;
    }
    proof {
        assert(pair_views(pairs@) =~= all.map_values(
            |e: EnvVariableView| (e.key, unquoted(e.value)),
        ));
    }
    Ok(pairs)
}

/// The port that a variable with this name holds.
pub open spec fn port_under(entries: Seq<EnvVariableView>, upper: Seq<char>) -> Option<nat> {
    match index_with_upper_key(entries, upper, 0) {
        Some(i) => port_value(entries[i].value),
        None => None,
    }
}

/// The port of the server that a frontend talks to: that of the backend where the file has such a
/// variable, else that of the graph server.
pub open spec fn server_port(entries: Seq<EnvVariableView>) -> Option<nat> {
    if index_with_upper_key(entries, "BACKEND_PORT"@, 0) is Some {
        port_under(entries, "BACKEND_PORT"@)
    } else {
        port_under(entries, "LANGGRAPH_PORT"@)
    }
}

/// What a process gets besides the variables of its file: the address of the server for a frontend,
/// and a mirror of models where the original cannot be reached, each unless the file names it.
pub open spec fn added_environment(entries: Seq<EnvVariableView>, models_reachable: bool) -> Seq<
    (Seq<char>, Seq<char>),
> {
    let server: Seq<(Seq<char>, Seq<char>)> = match (
        index_with_upper_key(entries, "VITE_LANGGRAPH_API_URL"@, 0),
        server_port(entries),
    ) {
        (None, Some(port)) => seq![
            ("VITE_LANGGRAPH_API_URL"@, "http://127.0.0.1:"@ + decimal(port)),
        ],
        _ => seq![],
    };
    let mirror: Seq<(Seq<char>, Seq<char>)> = if index_with_upper_key(entries, "HF_ENDPOINT"@, 0)
        is None && !models_reachable {
        seq![("HF_ENDPOINT"@, "https://hf-mirror.com"@)]
    } else {
        seq![]
    };
    server + mirror
}

/// What a process gets besides the variables of its file.
pub fn extra_environment(entries: &Vec<EnvVariable>, models_reachable: bool) -> (out: Vec<
    (String, String),
>)
    ensures
        pair_views(out@) == added_environment(env_views(entries@), models_reachable),
{
    let mut out: Vec<(String, String)> = Vec::new();
    let named: bool = position_of_upper_key(entries, "VITE_LANGGRAPH_API_URL").is_some();
    let port: Option<u16> = match position_of_upper_key(entries, "BACKEND_PORT") {
        Some(i) => port_of_value(entries[i].value.as_str()),
        None => match position_of_upper_key(entries, "LANGGRAPH_PORT") {
            Some(i) => port_of_value(entries[i].value.as_str()),
            None => None,
        },
    };
    if !named {
        match port {
            Some(p) => {
                let address: String = owned("http://127.0.0.1:").concat(
                    decimal_text(p as u64).as_str(),
                );
                out.push((owned("VITE_LANGGRAPH_API_URL"), address));
            },
            None => {},
        }
    }
    if position_of_upper_key(entries, "HF_ENDPOINT").is_none() && !models_reachable {
        out.push((owned("HF_ENDPOINT"), owned("https://hf-mirror.com")));
    }
    proof {
        assert(pair_views(out@) =~= added_environment(env_views(entries@), models_reachable));
    }
    out
}

/// Whether the site of models can be reached: one of the addresses that were tried answered.
pub fn huggingface_reachable(answers: &Vec<bool>) -> (r: bool)
    ensures
        r == answers@.contains(true),
{
    let mut i: usize = 0;
    while i < answers.len()
        invariant
            i <= answers@.len(),
            forall|k: int| 0 <= k < i ==> !answers@[k],
        decreases answers@.len() - i,
    {
        if answers[i] {
            return true;
        }
        i += 1;
    }
    false
}

/// A variable that tells where a local service is reached.
pub open spec fn tells_address(entry: EnvVariableView) -> bool {
    local_port_key(entry.key) || (contains(ascii_upper(entry.key), "URL"@) && (contains(
        entry.value,
        "127.0.0.1"@,
    ) || contains(entry.value, "localhost"@) || contains(entry.value, "0.0.0.0"@) || contains(
        entry.value,
        "[::1]"@,
    )))
}

/// The variables that tell where local services are reached, as lines.
pub open spec fn address_lines(entries: Seq<EnvVariableView>) -> Seq<Seq<char>>
    decreases entries.len(),
{
    if entries.len() == 0 {
        seq![]
    } else {
        let rest = address_lines(entries.drop_last());
        let e = entries.last();
        if tells_address(e) {
            rest.push(e.key + "="@ + e.value)
        } else {
            rest
        }
    }
}

/// The addresses of local services that a process starts with, for the log.
pub fn runtime_environment_summary(entries: &Vec<EnvVariable>) -> (out: String)
    ensures
        out@ == join(address_lines(env_views(entries@)), "\n"@),
{
    let ghost all = env_views(entries@);
    let mut rows: Vec<String> = Vec::new();
    let mut i: usize = 0;
    proof {
        assert(all.take(0) =~= Seq::<EnvVariableView>::empty());
        assert(texts(rows@) =~= Seq::<Seq<char>>::empty());
    }
    while i < entries.len()
        invariant
            i <= entries@.len(),
            all == env_views(entries@),
            texts(rows@) == address_lines(all.take(i as int)),
        decreases entries@.len() - i,
    {
        let ghost before = texts(rows@);
        proof {
            assert(all.take(i + 1).drop_last() =~= all.take(i as int));
            assert(all.take(i + 1).last() == entries@[i as int]@);
        }
        let upper: String = to_ascii_upper(entries[i].key.as_str());
        let value: &str = entries[i].value.as_str();
        if is_local_service_port_key(entries[i].key.as_str()) || (text_has(upper.as_str(), "URL")
            && (text_has(value, "127.0.0.1") || text_has(value, "localhost") || text_has(
            value,
            "0.0.0.0",
        ) || text_has(value, "[::1]"))) {
            let row: String = owned(entries[i].key.as_str()).concat("=").concat(value);
            let ghost line = row@;
            rows.push(row);
            proof {
                assert(texts(rows@) =~= before.push(line));
            }
        }
        i += 1;
    }
    proof {
        assert(all.take(i as int) =~= all);
    }
    join_texts(&rows, "\n")
}

// ---------------------------------------------------------------------------------------------
// Ports of the services of a manifest
// ---------------------------------------------------------------------------------------------
/// The port in a URL, or zero.
pub open spec fn url_port_or_zero(url: Seq<char>) -> nat {
    match url_port(url) {
        Some(port) => port,
        None => 0,
    }
}

fn port_or_zero(url: &str) -> (port: u16)
    ensures
        port == url_port_or_zero(url@),
{
    match extract_url_port(url) {
        Some(port) => port,
        None => 0,
    }
}

/// A URL with a port is not empty.
proof fn lemma_url_with_port_is_not_empty(url: Seq<char>)
    requires
        url_port_or_zero(url) > 0,
    ensures
        url.len() > 0,
{
    reveal_strlit("://");
    if url.len() == 0 {
        lemma_find(url, "://"@);
        assert(crate::search::find(url, "://"@) is None);
        assert(split(url, "://"@) =~= seq![url]);
    }
}

/// The variable that holds the port of a service.
pub open spec fn port_key(name: Seq<char>) -> Seq<char> {
    ascii_upper(name) + "_PORT"@
}

fn port_key_text(name: &str) -> (out: String)
    ensures
        out@ == port_key(name@),
{
    to_ascii_upper(name).concat("_PORT")
}

/// A manifest with the port of one URL changed, where it differs from the one that stands there.
pub open spec fn with_service_port(content: Seq<char>, url: Seq<char>, port: nat) -> Seq<char> {
    if port != url_port_or_zero(url) {
        replace_all(content, url, url_with_port(url, port))
    } else {
        content
    }
}

fn service_port_in(content: &str, url: &str, port: u16) -> (out: String)
    requires
        url@.len() > 0,
    ensures
        out@ == with_service_port(content@, url@, port as nat),
{
    if port != port_or_zero(url) {
        let new_url: String = replace_url_port(url, port);
        replaced(content, url, new_url.as_str())
    } else {
        owned(content)
    }
}

/// The port above zero that an environment file holds under a key.
pub open spec fn chosen_port(entries: Seq<EnvVariableView>, key: Seq<char>) -> Option<nat> {
    match port_under(entries, key) {
        Some(port) => if port > 0 {
            Some(port)
        } else {
            None
        },
        None => None,
    }
}

/// A variable under another key holds this port.
pub open spec fn held_elsewhere(entries: Seq<EnvVariableView>, key: Seq<char>, port: nat) -> bool {
    exists|k: int|
        0 <= k < entries.len() && ascii_upper((#[trigger] entries[k]).key) != key && port_value(
            entries[k].value,
        ) == Some(port)
}

fn chosen_port_of(entries: &Vec<EnvVariable>, key: &str) -> (r: Option<u16>)
    ensures
        match r {
            Some(port) => chosen_port(env_views(entries@), key@) == Some(port as nat),
            None => chosen_port(env_views(entries@), key@) is None,
        },
{
    match position_of_upper_key(entries, key) {
        Some(i) => match port_of_value(entries[i].value.as_str()) {
            Some(port) => if port > 0 {
                Some(port)
            } else {
                None
            },
            None => None,
        },
        None => None,
    }
}

fn is_held_elsewhere(entries: &Vec<EnvVariable>, key: &str, port: u16) -> (r: bool)
    ensures
        r == held_elsewhere(env_views(entries@), key@, port as nat),
{
    let ghost all = env_views(entries@);
    let mut i: usize = 0;
    while i < entries.len()
        invariant
            i <= entries@.len(),
            all == env_views(entries@),
            forall|k: int|
                0 <= k < i ==> !(ascii_upper((#[trigger] all[k]).key) != key@ && port_value(
                    all[k].value,
                ) == Some(port as nat)),
        decreases entries@.len() - i,
    {
        proof {
            assert(all[i as int] == entries@[i as int]@);
        }
        let upper: String = to_ascii_upper(entries[i].key.as_str());
        if !same(upper.as_str(), key) {
            match port_of_value(entries[i].value.as_str()) {
                Some(value) => {
                    if value == port {
                        return true;
                    }
                },
                None => {},
            }
        }
        i += 1;
    }
    false
}

/// How far the services of a manifest have been gone through.
#[verifier::ext_equal]
pub struct ServiceRun {
    pub ports: Seq<(Seq<char>, u16)>,
    pub changes: Seq<PortChangeView>,
    pub taken: Seq<u16>,
    pub spare: Seq<u16>,
}

/// The port that a service wants: the one that the environment file holds for it, else the one in
/// its URL; none where its URL has none, or where another variable holds that port already.
pub open spec fn wanted_port(service: (Seq<char>, Seq<char>), env: Seq<EnvVariableView>) -> Option<
    nat,
> {
    let default = url_port_or_zero(service.1);
    let key = port_key(service.0);
    if default == 0 {
        None
    } else {
        match chosen_port(env, key) {
            Some(port) => Some(port),
            None => if held_elsewhere(env, key, default) {
                None
            } else {
                Some(default)
            },
        }
    }
}

/// Goes through the services from the first to the last and gives each a port.
pub open spec fn service_run(
    services: Seq<(Seq<char>, Seq<char>)>,
    env: Seq<EnvVariableView>,
    reserved: Seq<u16>,
    free: Seq<u16>,
    spare: Seq<u16>,
) -> Option<ServiceRun>
    decreases services.len(),
{
    if services.len() == 0 {
        Some(ServiceRun { ports: seq![], changes: seq![], taken: reserved, spare })
    } else {
        match service_run(services.drop_last(), env, reserved, free, spare) {
            None => None,
            Some(run) => match wanted_port(services.last(), env) {
                None => Some(run),
                Some(wanted) => match assign(wanted as u16, free, run.taken, run.spare) {
                    None => None,
                    Some(a) => {
                        let key = port_key(services.last().0);
                        Some(
                            ServiceRun {
                                ports: run.ports.push((key, a.port)),
                                changes: if free.contains(wanted as u16) && !run.taken.contains(
                                    wanted as u16,
                                ) {
                                    run.changes
                                } else {
                                    run.changes.push(
                                        PortChangeView {
                                            key,
                                            old_port: wanted as u16,
                                            new_port: a.port,
                                        },
                                    )
                                },
                                taken: a.taken,
                                spare: a.spare,
                            },
                        )
                    },
                },
            },
        }
    }
}

/// The manifest with the ports that its services were given.
pub open spec fn manifest_with_ports(
    content: Seq<char>,
    services: Seq<(Seq<char>, Seq<char>)>,
    ports: Seq<(Seq<char>, u16)>,
) -> Seq<char>
    decreases services.len(),
{
    if services.len() == 0 {
        content
    } else {
        let before = manifest_with_ports(content, services.drop_last(), ports);
        let url = services.last().1;
        if url_port_or_zero(url) == 0 {
            before
        } else {
            match first_port(ports, port_key(services.last().0), 0) {
                Some(port) => with_service_port(before, url, port as nat),
                None => before,
            }
        }
    }
}

proof fn lemma_service_run_none(
    services: Seq<(Seq<char>, Seq<char>)>,
    env: Seq<EnvVariableView>,
    reserved: Seq<u16>,
    free: Seq<u16>,
    spare: Seq<u16>,
    k: int,
)
    requires
        0 <= k <= services.len(),
        service_run(services.take(k), env, reserved, free, spare) is None,
    ensures
        service_run(services, env, reserved, free, spare) is None,
    decreases services.len() - k,
{
    if k == services.len() {
        assert(services.take(k) =~= services);
    } else {
        assert(services.take(k + 1).drop_last() =~= services.take(k));
        lemma_service_run_none(services, env, reserved, free, spare, k + 1);
    }
}

/// A manifest with new ports, the changes, and the port of each variable.
#[derive(Debug)]
pub struct LifecyclePorts {
    pub content: String,
    pub changes: Vec<PortChange>,
    pub ports: Vec<(String, u16)>,
}

/// Gives the services of a manifest ports that are free and not reserved. The environment file comes
/// before the manifest; `free` and `spare` hold what the machine was found to have.
pub fn resolve_lifecycle_ports(
    content: &str,
    services: &Vec<(String, String)>,
    env_entries: &Vec<EnvVariable>,
    reserved_ports: &Vec<u16>,
    free: &Vec<u16>,
    spare: &Vec<u16>,
) -> (r: Result<LifecyclePorts, NoSparePort>)
    ensures
        match (
            r,
            service_run(
                service_views(services@),
                env_views(env_entries@),
                reserved_ports@,
                free@,
                spare@,
            ),
        ) {
            (Ok(out), Some(run)) => port_views(out.ports@) == run.ports && change_views(
                out.changes@,
            ) == run.changes && out.content@ == manifest_with_ports(
                content@,
                service_views(services@),
                run.ports,
            ),
            (Err(_), None) => true,
            _ => false,
        },
{
    let ghost all = service_views(services@);
    let ghost env = env_views(env_entries@);
    let mut ports: Vec<(String, u16)> = Vec::new();
    let mut changes: Vec<PortChange> = Vec::new();
    let mut taken: Vec<u16> = copy_ports(reserved_ports);
    let mut used: usize = 0;
    let mut i: usize = 0;
    proof {
        assert(all.take(0) =~= Seq::<(Seq<char>, Seq<char>)>::empty());
        assert(port_views(ports@) =~= Seq::<(Seq<char>, u16)>::empty());
        assert(change_views(changes@) =~= Seq::<PortChangeView>::empty());
        assert(spare@.skip(0) =~= spare@);
    }
    while i < services.len()
        invariant
            i <= services@.len(),
            all == service_views(services@),
            env == env_views(env_entries@),
            used <= spare@.len(),
            service_run(all.take(i as int), env, reserved_ports@, free@, spare@) == Some(
                ServiceRun {
                    ports: port_views(ports@),
                    changes: change_views(changes@),
                    taken: taken@,
                    spare: spare@.skip(used as int),
                },
            ),
        decreases services@.len() - i,
    {
        let ghost before_ports = port_views(ports@);
        let ghost before_changes = change_views(changes@);
        proof {
            assert(all.take(i + 1).drop_last() =~= all.take(i as int));
            assert(all.take(i + 1).last() == all[i as int]);
        }
        let default_port: u16 = port_or_zero(services[i].1.as_str());
        let key: String = port_key_text(services[i].0.as_str());
        i += 1;
        if default_port == 0 {
            continue;
        }
        let wanted: u16 = match chosen_port_of(env_entries, key.as_str()) {
            Some(port) => port,
            None => {
                if is_held_elsewhere(env_entries, key.as_str(), default_port) {
                    continue;
                }
                default_port
            },
        };
        let kept: bool = has_port(free, wanted) && !has_port(&taken, wanted);
        match assign_port(wanted, free, &mut taken, spare, &mut used) {
            Some(port) => {
                if !kept {
                    let change: PortChange = PortChange {
                        key: key.clone(),
                        old_port: wanted,
                        new_port: port,
                    };
                    let ghost moved = change@;
                    changes.push(change);
                    proof {
                        assert(change_views(changes@) =~= before_changes.push(moved));
                    }
                }
                let ghost named = (key@, port);
                ports.push((key, port));
                proof {
                    assert(port_views(ports@) =~= before_ports.push(named));
                }
            },
            None => {
                proof {
                    lemma_service_run_none(all, env, reserved_ports@, free@, spare@, i as int);
                }
                return Err(NoSparePort);
            },
        }
    }
    proof {
        assert(all.take(i as int) =~= all);
    }
    let updated: String = manifest_text_with_ports(content, services, &ports);
    Ok(LifecyclePorts { content: updated, changes, ports })
}

fn manifest_text_with_ports(
    content: &str,
    services: &Vec<(String, String)>,
    ports: &Vec<(String, u16)>,
) -> (out: String)
    ensures
        out@ == manifest_with_ports(content@, service_views(services@), port_views(ports@)),
{
    let ghost all = service_views(services@);
    let mut out: String = owned(content);
    let mut i: usize = 0;
    proof {
        assert(all.take(0) =~= Seq::<(Seq<char>, Seq<char>)>::empty());
    }
    while i < services.len()
        invariant
            i <= services@.len(),
            all == service_views(services@),
            out@ == manifest_with_ports(content@, all.take(i as int), port_views(ports@)),
        decreases services@.len() - i,
    {
        proof {
            assert(all.take(i + 1).drop_last() =~= all.take(i as int));
            assert(all.take(i + 1).last() == all[i as int]);
        }
        let url: &str = services[i].1.as_str();
        if port_or_zero(url) != 0 {
            proof {
                lemma_url_with_port_is_not_empty(url@);
            }
            let key: String = port_key_text(services[i].0.as_str());
            match first_port_named(ports, key.as_str()) {
                Some(port) => {
                    out = service_port_in(out.as_str(), url, port);
                },
                None => {},
            }
        }
        i += 1;
    }
    proof {
        assert(all.take(i as int) =~= all);
    }
    out
}

// ---------------------------------------------------------------------------------------------
// Ports of a new instance
// ---------------------------------------------------------------------------------------------
/// The change that moved a port.
pub open spec fn change_of_port(changes: Seq<PortChangeView>, port: nat, i: int) -> Option<
    PortChangeView,
>
    decreases changes.len() - i,
{
    if i < 0 || i >= changes.len() {
        None
    } else if changes[i].old_port == port {
        Some(changes[i])
    } else {
        change_of_port(changes, port, i + 1)
    }
}

fn position_of_port_change(changes: &Vec<PortChange>, port: u16) -> (r: Option<usize>)
    ensures
        match r {
            Some(k) => k < changes@.len() && change_of_port(
                change_views(changes@),
                port as nat,
                0,
            ) == Some(changes@[k as int]@),
            None => change_of_port(change_views(changes@), port as nat, 0) is None,
        },
{
    let mut i: usize = 0;
    while i < changes.len()
        invariant
            i <= changes@.len(),
            change_of_port(change_views(changes@), port as nat, 0) == change_of_port(
                change_views(changes@),
                port as nat,
                i as int,
            ),
        decreases changes@.len() - i,
    {
        if changes[i].old_port == port {
            return Some(i);
        }
        i += 1;
    }
    None
}

/// How far the services of a new instance have been gone through.
#[verifier::ext_equal]
pub struct NewPorts {
    pub ports: Seq<(Seq<char>, u16)>,
    pub changes: Seq<PortChangeView>,
    pub taken: Seq<u16>,
    pub spare: Seq<u16>,
    pub content: Seq<char>,
}

/// Goes through one more service of a new instance. A port that was chosen under its key, or that
/// moved under another one, is followed; a port that another variable holds is left to it; any
/// other is assigned now.
pub open spec fn new_ports_step(
    run: NewPorts,
    service: (Seq<char>, Seq<char>),
    free: Seq<u16>,
) -> Option<NewPorts> {
    let default = url_port_or_zero(service.1);
    let key = port_key(service.0);
    if default == 0 {
        Some(run)
    } else {
        match first_port(run.ports, key, 0) {
            Some(port) => Some(
                NewPorts {
                    content: with_service_port(run.content, service.1, port as nat),
                    ..run
                },
            ),
            None => match change_of_port(run.changes, default, 0) {
                Some(change) => Some(
                    NewPorts {
                        content: with_service_port(run.content, service.1, change.new_port as nat),
                        ..run
                    },
                ),
                None => if run.taken.contains(default as u16) {
                    Some(run)
                } else {
                    match assign(default as u16, free, run.taken, run.spare) {
                        None => None,
                        Some(a) => Some(
                            NewPorts {
                                ports: with_port(run.ports, key, a.port),
                                changes: if free.contains(default as u16) {
                                    run.changes
                                } else {
                                    run.changes.push(
                                        PortChangeView {
                                            key,
                                            old_port: default as u16,
                                            new_port: a.port,
                                        },
                                    )
                                },
                                taken: a.taken,
                                spare: a.spare,
                                content: with_service_port(run.content, service.1, a.port as nat),
                            },
                        ),
                    }
                },
            },
        }
    }
}

/// Goes through the services of a new instance from the first to the last.
pub open spec fn new_ports_run(
    start: NewPorts,
    services: Seq<(Seq<char>, Seq<char>)>,
    free: Seq<u16>,
) -> Option<NewPorts>
    decreases services.len(),
{
    if services.len() == 0 {
        Some(start)
    } else {
        match new_ports_run(start, services.drop_last(), free) {
            Some(run) => new_ports_step(run, services.last(), free),
            None => None,
        }
    }
}

proof fn lemma_new_ports_none(
    start: NewPorts,
    services: Seq<(Seq<char>, Seq<char>)>,
    free: Seq<u16>,
    k: int,
)
    requires
        0 <= k <= services.len(),
        new_ports_run(start, services.take(k), free) is None,
    ensures
        new_ports_run(start, services, free) is None,
    decreases services.len() - k,
{
    if k == services.len() {
        assert(services.take(k) =~= services);
    } else {
        assert(services.take(k + 1).drop_last() =~= services.take(k));
        lemma_new_ports_none(start, services, free, k + 1);
    }
}

/// The ports of a list, without their names.
pub open spec fn bare_ports(list: Seq<(Seq<char>, u16)>) -> Seq<u16> {
    list.map_values(|p: (Seq<char>, u16)| p.1)
}

/// What the services of a new instance start from: the ports that its template described, and those
/// that are reserved.
pub open spec fn new_ports_start(
    content: Seq<char>,
    ports: Seq<(Seq<char>, u16)>,
    changes: Seq<PortChangeView>,
    reserved: Seq<u16>,
    spare: Seq<u16>,
) -> NewPorts {
    NewPorts { ports, changes, taken: reserved + bare_ports(ports), spare, content }
}

/// Gives the services of a new instance ports. `ports` and `changes` hold what was chosen for the
/// ports that its template describes, and take up what is chosen here; the manifest with the new
/// ports is returned.
pub fn assign_service_ports(
    content: &str,
    services: &Vec<(String, String)>,
    ports: &mut Vec<(String, u16)>,
    changes: &mut Vec<PortChange>,
    reserved: &Vec<u16>,
    free: &Vec<u16>,
    spare: &Vec<u16>,
) -> (r: Result<String, NoSparePort>)
    ensures
        match (
            r,
            new_ports_run(
                new_ports_start(
                    content@,
                    port_views(old(ports)@),
                    change_views(old(changes)@),
                    reserved@,
                    spare@,
                ),
                service_views(services@),
                free@,
            ),
        ) {
            (Ok(updated), Some(run)) => updated@ == run.content && port_views(final(ports)@)
                == run.ports && change_views(final(changes)@) == run.changes,
            (Err(_), None) => true,
            _ => false,
        },
{
    let ghost all = service_views(services@);
    let ghost start = new_ports_start(
        content@,
        port_views(ports@),
        change_views(changes@),
        reserved@,
        spare@,
    );
    let mut taken: Vec<u16> = copy_ports(reserved);
    let mut k: usize = 0;
    while k < ports.len()
        invariant
            k <= ports@.len(),
            taken@ == reserved@ + bare_ports(port_views(ports@)).take(k as int),
        decreases ports@.len() - k,
    {
        taken.push(ports[k].1);
        k += 1;
        proof {
            assert(taken@ =~= reserved@ + bare_ports(port_views(ports@)).take(k as int));
        }
    }
    let mut updated: String = owned(content);
    let mut used: usize = 0;
    let mut i: usize = 0;
    proof {
        assert(bare_ports(port_views(ports@)).take(k as int) =~= bare_ports(port_views(ports@)));
        assert(all.take(0) =~= Seq::<(Seq<char>, Seq<char>)>::empty());
        assert(spare@.skip(0) =~= spare@);
    }
    while i < services.len()
        invariant
            i <= services@.len(),
            all == service_views(services@),
            used <= spare@.len(),
            start == new_ports_start(
                content@,
                port_views(old(ports)@),
                change_views(old(changes)@),
                reserved@,
                spare@,
            ),
            new_ports_run(start, all.take(i as int), free@) == Some(
                NewPorts {
                    ports: port_views(ports@),
                    changes: change_views(changes@),
                    taken: taken@,
                    spare: spare@.skip(used as int),
                    content: updated@,
                },
            ),
        decreases services@.len() - i,
    {
        let ghost before_changes = change_views(changes@);
        proof {
            assert(all.take(i + 1).drop_last() =~= all.take(i as int));
            assert(all.take(i + 1).last() == all[i as int]);
        }
        let url: &str = services[i].1.as_str();
        let default_port: u16 = port_or_zero(url);
        let key: String = port_key_text(services[i].0.as_str());
        i += 1;
        if default_port == 0 {
            continue;
        }
        proof {
            lemma_url_with_port_is_not_empty(url@);
        }
        match first_port_named(ports, key.as_str()) {
            Some(port) => {
                updated = service_port_in(updated.as_str(), url, port);
                continue;
            },
            None => {},
        }
        match position_of_port_change(changes, default_port) {
            Some(c) => {
                updated = service_port_in(updated.as_str(), url, changes[c].new_port);
                continue;
            },
            None => {},
        }
        if has_port(&taken, default_port) {
            continue;
        }
        let kept: bool = has_port(free, default_port);
        match assign_port(default_port, free, &mut taken, spare, &mut used) {
            Some(port) => {
                if !kept {
                    let change: PortChange = PortChange {
                        key: key.clone(),
                        old_port: default_port,
                        new_port: port,
                    };
                    let ghost moved = change@;
                    changes.push(change);
                    proof {
                        assert(change_views(changes@) =~= before_changes.push(moved));
                    }
                }
                put_port(ports, key.as_str(), port);
                updated = service_port_in(updated.as_str(), url, port);
            },
            None => {
                proof {
                    lemma_new_ports_none(start, all, free@, i as int);
                }
                return Err(NoSparePort);
            },
        }
    }
    proof {
        assert(all.take(i as int) =~= all);
    }
    Ok(updated)
}

// ---------------------------------------------------------------------------------------------
// Variables of a new instance
// ---------------------------------------------------------------------------------------------
/// A variable under another key has this value.
pub open spec fn value_elsewhere(
    entries: Seq<EnvVariableView>,
    key: Seq<char>,
    value: Seq<char>,
) -> bool {
    exists|k: int|
        0 <= k < entries.len() && ascii_upper((#[trigger] entries[k]).key) != key && trim(
            entries[k].value,
        ) == value
}

fn is_value_elsewhere(entries: &Vec<EnvVariable>, key: &str, value: &str) -> (r: bool)
    ensures
        r == value_elsewhere(env_views(entries@), key@, value@),
{
    let ghost all = env_views(entries@);
    let mut i: usize = 0;
    while i < entries.len()
        invariant
            i <= entries@.len(),
            all == env_views(entries@),
            forall|k: int|
                0 <= k < i ==> !(ascii_upper((#[trigger] all[k]).key) != key@ && trim(all[k].value)
                    == value@),
        decreases entries@.len() - i,
    {
        proof {
            assert(all[i as int] == entries@[i as int]@);
        }
        let upper: String = to_ascii_upper(entries[i].key.as_str());
        let t: String = trimmed(entries[i].value.as_str());
        if !same(upper.as_str(), key) && same(t.as_str(), value) {
            return true;
        }
        i += 1;
    }
    false
}

/// The first change under a key.
pub open spec fn change_under(changes: Seq<PortChangeView>, key: Seq<char>, i: int) -> Option<
    PortChangeView,
>
    decreases changes.len() - i,
{
    if i < 0 || i >= changes.len() {
        None
    } else if changes[i].key == key {
        Some(changes[i])
    } else {
        change_under(changes, key, i + 1)
    }
}

fn position_of_change_under(changes: &Vec<PortChange>, key: &str) -> (r: Option<usize>)
    ensures
        match r {
            Some(k) => k < changes@.len() && change_under(change_views(changes@), key@, 0) == Some(
                changes@[k as int]@,
            ),
            None => change_under(change_views(changes@), key@, 0) is None,
        },
{
    let mut i: usize = 0;
    while i < changes.len()
        invariant
            i <= changes@.len(),
            change_under(change_views(changes@), key@, 0) == change_under(
                change_views(changes@),
                key@,
                i as int,
            ),
        decreases changes@.len() - i,
    {
        if same(changes[i].key.as_str(), key) {
            return Some(i);
        }
        i += 1;
    }
    None
}

/// A variable that held a moved port, or a URL with it, with the port that it moved to.
pub open spec fn following(entry: EnvVariableView, old_port: u16, new_port: u16) -> EnvVariableView {
    if trim(entry.value) == decimal(old_port as nat) {
        EnvVariableView { value: decimal(new_port as nat), modified: true, ..entry }
    } else if url_port(entry.value) == Some(old_port as nat) {
        with_url(entry, url_with_port(entry.value, new_port as nat))
    } else {
        entry
    }
}

fn follow(entry: &EnvVariable, old_port: u16, new_port: u16) -> (out: EnvVariable)
    ensures
        out@ == following(entry@, old_port, new_port),
{
    let mut out: EnvVariable = entry.clone();
    let t: String = trimmed(entry.value.as_str());
    let old_text: String = decimal_text(old_port as u64);
    if same(t.as_str(), old_text.as_str()) {
        out.value = decimal_text(new_port as u64);
        out.modified = true;
        return out;
    }
    match extract_url_port(entry.value.as_str()) {
        Some(port) => {
            if port == old_port {
                let url: String = replace_url_port(entry.value.as_str(), new_port);
                set_url(&mut out, url);
            }
        },
        None => {},
    }
    out
}

/// A variable with a new value, marked as modified where the value differs.
pub open spec fn with_value(entry: EnvVariableView, value: Seq<char>) -> EnvVariableView {
    with_url(entry, value)
}

/// The variables with one more chosen port. A variable of that name takes it; where there was none
/// to begin with, a variable that has the value already, or that held the port before it moved,
/// stands for it, and else one is added.
pub open spec fn with_chosen_port(
    entries: Seq<EnvVariableView>,
    known: Seq<EnvVariableView>,
    key: Seq<char>,
    port: u16,
    changes: Seq<PortChangeView>,
) -> Seq<EnvVariableView> {
    let value = decimal(port as nat);
    if index_with_upper_key(known, key, 0) is Some {
        match index_with_upper_key(entries, key, 0) {
            Some(i) => entries.update(i, with_value(entries[i], value)),
            None => entries,
        }
    } else if value_elsewhere(entries, key, value) {
        entries
    } else {
        match change_under(changes, key, 0) {
            Some(change) => entries.map_values(
                |e: EnvVariableView| following(e, change.old_port, port),
            ),
            None => entries.push(
                EnvVariableView {
                    key,
                    value,
                    comment: seq![],
                    source: "describe"@,
                    modified: true,
                },
            ),
        }
    }
}

/// The variables with the chosen ports, from the first to the last.
pub open spec fn with_chosen_ports(
    entries: Seq<EnvVariableView>,
    ports: Seq<(Seq<char>, u16)>,
    changes: Seq<PortChangeView>,
) -> Seq<EnvVariableView>
    decreases ports.len(),
{
    if ports.len() == 0 {
        entries
    } else {
        with_chosen_port(
            with_chosen_ports(entries, ports.drop_last(), changes),
            entries,
            ports.last().0,
            ports.last().1,
            changes,
        )
    }
}

fn follow_all(entries: &Vec<EnvVariable>, old_port: u16, new_port: u16) -> (out: Vec<EnvVariable>)
    ensures
        env_views(out@) == env_views(entries@).map_values(
            |e: EnvVariableView| following(e, old_port, new_port),
        ),
{
    let mut out: Vec<EnvVariable> = Vec::new();
    let mut i: usize = 0;
    while i < entries.len()
        invariant
            i <= entries@.len(),
            out@.len() == i,
            forall|k: int|
                0 <= k < i ==> (#[trigger] out@[k])@ == following(entries@[k]@, old_port, new_port),
        decreases entries@.len() - i,
    {
        out.push(follow(&entries[i], old_port, new_port));
        i += 1;
    }
    proof {
        assert(env_views(out@) =~= env_views(entries@).map_values(
            |e: EnvVariableView| following(e, old_port, new_port),
        ));
    }
    out
}

/// Writes the chosen ports to the variables of a new instance.
pub fn apply_chosen_ports(
    entries: &mut Vec<EnvVariable>,
    ports: &Vec<(String, u16)>,
    changes: &Vec<PortChange>,
)
    ensures
        env_views(final(entries)@) == with_chosen_ports(
            env_views(old(entries)@),
            port_views(ports@),
            change_views(changes@),
        ),
{
    let known: Vec<EnvVariable> = copy_entries(entries);
    let ghost start = env_views(entries@);
    let ghost all = port_views(ports@);
    let mut i: usize = 0;
    proof {
        assert(all.take(0) =~= Seq::<(Seq<char>, u16)>::empty());
    }
    while i < ports.len()
        invariant
            i <= ports@.len(),
            all == port_views(ports@),
            start == env_views(known@),
            env_views(entries@) == with_chosen_ports(
                start,
                all.take(i as int),
                change_views(changes@),
            ),
        decreases ports@.len() - i,
    {
        let ghost before = env_views(entries@);
        proof {
            assert(all.take(i + 1).drop_last() =~= all.take(i as int));
            assert(all.take(i + 1).last() == all[i as int]);
        }
        let key: &str = ports[i].0.as_str();
        let port: u16 = ports[i].1;
        let value: String = decimal_text(port as u64);
        if position_of_upper_key(&known, key).is_some() {
            match position_of_upper_key(entries, key) {
                Some(k) => {
                    let mut entry: EnvVariable = entries[k].clone();
                    set_url(&mut entry, value);
                    let ghost updated = entry@;
                    entries.set(k, entry);
                    proof {
                        assert(env_views(entries@) =~= before.update(k as int, updated));
                    }
                },
                None => {},
            }
        } else if !is_value_elsewhere(entries, key, value.as_str()) {
            match position_of_change_under(changes, key) {
                Some(c) => {
                    *entries = follow_all(entries, changes[c].old_port, port);
                },
                None => {
                    let entry: EnvVariable = EnvVariable {
                        key: owned(key),
                        value,
                        comment: String::new(),
                        source: owned("describe"),
                        modified: true,
                    };
                    let ghost added = entry@;
                    entries.push(entry);
                    proof {
                        assert(env_views(entries@) =~= before.push(added));
                        assert(added =~= EnvVariableView {
                            key: key@,
                            value: decimal(port as nat),
                            comment: seq![],
                            source: "describe"@,
                            modified: true,
                        });
                    }
                },
            }
        }
        i += 1;
    }
    proof {
        assert(all.take(i as int) =~= all);
    }
}

/// The variable that turns tracing off.
pub open spec fn tracing_off() -> EnvVariableView {
    EnvVariableView {
        key: "LANGSMITH_TRACING"@,
        value: "false"@,
        comment: "Disable LangSmith tracing to avoid metadata submission warnings"@,
        source: "instance"@,
        modified: true,
    }
}

/// The variables, with tracing turned off unless they say something of it.
pub open spec fn with_tracing(entries: Seq<EnvVariableView>) -> Seq<EnvVariableView> {
    if index_with_upper_key(entries, "LANGSMITH_TRACING"@, 0) is Some {
        entries
    } else {
        entries.push(tracing_off())
    }
}

/// Turns tracing off unless the variables say something of it.
pub fn ensure_tracing_choice(entries: &mut Vec<EnvVariable>)
    ensures
        env_views(final(entries)@) == with_tracing(env_views(old(entries)@)),
{
    if position_of_upper_key(entries, "LANGSMITH_TRACING").is_none() {
        let ghost before = env_views(entries@);
        let entry: EnvVariable = EnvVariable {
            key: owned("LANGSMITH_TRACING"),
            value: owned("false"),
            comment: owned("Disable LangSmith tracing to avoid metadata submission warnings"),
            source: owned("instance"),
            modified: true,
        };
        let ghost added = entry@;
        entries.push(entry);
        proof {
            assert(added =~= tracing_off());
            assert(env_views(entries@) =~= before.push(added));
        }
    }
}

// ---------------------------------------------------------------------------------------------
// Saving the variables of an instance
// ---------------------------------------------------------------------------------------------
/// The variables with the port of one service: in the variable of that name, or in one that is
/// added.
pub open spec fn with_service_variable(
    entries: Seq<EnvVariableView>,
    key: Seq<char>,
    port: u16,
) -> Seq<EnvVariableView> {
    match index_with_upper_key(entries, key, 0) {
        Some(i) => entries.update(i, with_value(entries[i], decimal(port as nat))),
        None => entries.push(
            EnvVariableView {
                key,
                value: decimal(port as nat),
                comment: ascii_lower(trim_end_all(key, "_PORT"@))
                    + " service port (auto-resolved)"@,
                source: "instance"@,
                modified: true,
            },
        ),
    }
}

/// The variables with the ports of services, from the first to the last.
pub open spec fn with_service_variables(
    entries: Seq<EnvVariableView>,
    ports: Seq<(Seq<char>, u16)>,
) -> Seq<EnvVariableView>
    decreases ports.len(),
{
    if ports.len() == 0 {
        entries
    } else {
        with_service_variable(
            with_service_variables(entries, ports.drop_last()),
            ports.last().0,
            ports.last().1,
        )
    }
}

/// A URL variable whose name holds that of a service, with the port of the service.
pub open spec fn with_service_url(entry: EnvVariableView, key: Seq<char>, port: u16) -> EnvVariableView {
    let k = ascii_upper(entry.key);
    if contains(k, "URL"@) && contains(k, trim_end_all(key, "_PORT"@)) {
        with_url(entry, url_with_port(entry.value, port as nat))
    } else {
        entry
    }
}

/// A variable after the ports of services were written to it, from the first to the last.
pub open spec fn with_service_urls(
    entry: EnvVariableView,
    ports: Seq<(Seq<char>, u16)>,
) -> EnvVariableView
    decreases ports.len(),
{
    if ports.len() == 0 {
        entry
    } else {
        with_service_url(
            with_service_urls(entry, ports.drop_last()),
            ports.last().0,
            ports.last().1,
        )
    }
}

fn service_urls_in(entry: &EnvVariable, ports: &Vec<(String, u16)>) -> (out: EnvVariable)
    ensures
        out@ == with_service_urls(entry@, port_views(ports@)),
{
    let ghost all = port_views(ports@);
    let mut out: EnvVariable = entry.clone();
    let mut i: usize = 0;
    proof {
        assert(all.take(0) =~= Seq::<(Seq<char>, u16)>::empty());
    }
    while i < ports.len()
        invariant
            i <= ports@.len(),
            all == port_views(ports@),
            out@ == with_service_urls(entry@, all.take(i as int)),
        decreases ports@.len() - i,
    {
        proof {
            assert(all.take(i + 1).drop_last() =~= all.take(i as int));
            assert(all.take(i + 1).last() == all[i as int]);
        }
        let upper: String = to_ascii_upper(out.key.as_str());
        let name: String = trimmed_end_all(ports[i].0.as_str(), "_PORT");
        if text_has(upper.as_str(), "URL") && text_has(upper.as_str(), name.as_str()) {
            let url: String = replace_url_port(out.value.as_str(), ports[i].1);
            set_url(&mut out, url);
        }
        i += 1;
    }
    proof {
        assert(all.take(i as int) =~= all);
    }
    out
}

/// Writes the ports of services to the variables of an instance: first to the port variables, then
/// to the URL variables.
pub fn apply_service_ports(entries: &mut Vec<EnvVariable>, ports: &Vec<(String, u16)>)
    ensures
        env_views(final(entries)@) == with_service_variables(
            env_views(old(entries)@),
            port_views(ports@),
        ).map_values(|e: EnvVariableView| with_service_urls(e, port_views(ports@))),
{
    let ghost start = env_views(entries@);
    let ghost all = port_views(ports@);
    let mut i: usize = 0;
    proof {
        assert(all.take(0) =~= Seq::<(Seq<char>, u16)>::empty());
    }
    while i < ports.len()
        invariant
            i <= ports@.len(),
            all == port_views(ports@),
            env_views(entries@) == with_service_variables(start, all.take(i as int)),
        decreases ports@.len() - i,
    {
        let ghost before = env_views(entries@);
        proof {
            assert(all.take(i + 1).drop_last() =~= all.take(i as int));
            assert(all.take(i + 1).last() == all[i as int]);
        }
        let key: &str = ports[i].0.as_str();
        let value: String = decimal_text(ports[i].1 as u64);
        match position_of_upper_key(entries, key) {
            Some(k) => {
                let mut entry: EnvVariable = entries[k].clone();
                set_url(&mut entry, value);
                let ghost updated = entry@;
                entries.set(k, entry);
                proof {
                    assert(env_views(entries@) =~= before.update(k as int, updated));
                }
            },
            None => {
                let name: String = trimmed_end_all(key, "_PORT");
                let entry: EnvVariable = EnvVariable {
                    key: owned(key),
                    value,
                    comment: to_ascii_lower(name.as_str()).concat(
                        " service port (auto-resolved)",
                    ),
                    source: owned("instance"),
                    modified: true,
                };
                let ghost added = entry@;
                entries.push(entry);
                proof {
                    assert(env_views(entries@) =~= before.push(added));
                }
            },
        }
        i += 1;
    }
    proof {
        assert(all.take(i as int) =~= all);
    }
    let mut out: Vec<EnvVariable> = Vec::new();
    let mut k: usize = 0;
    while k < entries.len()
        invariant
            k <= entries@.len(),
            out@.len() == k,
            forall|j: int|
                0 <= j < k ==> (#[trigger] out@[j])@ == with_service_urls(
                    entries@[j]@,
                    port_views(ports@),
                ),
        decreases entries@.len() - k,
    {
        out.push(service_urls_in(&entries[k], ports));
        k += 1;
    }
    proof {
        assert(env_views(out@) =~= env_views(entries@).map_values(
            |e: EnvVariableView| with_service_urls(e, port_views(ports@)),
        ));
    }
    *entries = out;
}

/// The variables once they are saved: none of them is marked as modified.
pub fn saved_entries(entries: &Vec<EnvVariable>) -> (out: Vec<EnvVariable>)
    ensures
        env_views(out@) == env_views(entries@).map_values(
            |e: EnvVariableView| (EnvVariableView { modified: false, ..e }),
        ),
{
    let mut out: Vec<EnvVariable> = Vec::new();
    let mut i: usize = 0;
    while i < entries.len()
        invariant
            i <= entries@.len(),
            out@.len() == i,
            forall|k: int|
                0 <= k < i ==> (#[trigger] out@[k])@ == (EnvVariableView {
                    modified: false,
                    ..entries@[k]@
                }),
        decreases entries@.len() - i,
    {
        let mut entry: EnvVariable = entries[i].clone();
        entry.modified = false;
        out.push(entry);
        i += 1;
    }
    proof {
        assert(env_views(out@) =~= env_views(entries@).map_values(
            |e: EnvVariableView| (EnvVariableView { modified: false, ..e }),
        ));
    }
    out
}

/// How the ports of an instance are settled when its variables are saved.
#[derive(Debug, PartialEq, Eq, Structural, Clone, Copy)]
pub enum PortSettling {
    /// The instance is deployed: its ports stay.
    Keep,
    /// There is no manifest: conflicts between the variables are resolved.
    AmongVariables,
    /// The services of the manifest get ports.
    FromManifest,
}

/// Decides how the ports of an instance are settled when its variables are saved.
pub fn port_settling(deployment_completed: bool, manifest_exists: bool) -> (r: PortSettling)
    ensures
        r == (if deployment_completed {
            PortSettling::Keep
        } else if manifest_exists {
            PortSettling::FromManifest
        } else {
            PortSettling::AmongVariables
        }),
{
    if deployment_completed {
        PortSettling::Keep
    } else if manifest_exists {
        PortSettling::FromManifest
    } else {
        PortSettling::AmongVariables
    }
}

// ---------------------------------------------------------------------------------------------
// The environment file of a frontend
// ---------------------------------------------------------------------------------------------
/// A variable of an example with what a file has saved under its name: the value, and the comment
/// where it is not blank.
pub open spec fn with_saved(
    entry: EnvVariableView,
    existing: Seq<EnvVariableView>,
) -> EnvVariableView {
    match last_with_upper_key(existing, ascii_upper(entry.key)) {
        Some(saved) => EnvVariableView {
            value: saved.value,
            comment: if trim(saved.comment).len() > 0 {
                saved.comment
            } else {
                entry.comment
            },
            ..entry
        },
        None => entry,
    }
}

/// The variables of a file that an example does not have.
pub open spec fn not_in_example(
    existing: Seq<EnvVariableView>,
    example: Seq<EnvVariableView>,
) -> Seq<EnvVariableView>
    decreases existing.len(),
{
    if existing.len() == 0 {
        seq![]
    } else {
        let rest = not_in_example(existing.drop_last(), example);
        if index_with_upper_key(example, ascii_upper(existing.last().key), 0) is Some {
            rest
        } else {
            rest.push(existing.last())
        }
    }
}

/// The variables of a frontend: those of its example with what its file has saved, then the others
/// of its file, all in step with the file of the instance.
pub open spec fn frontend_variables(
    example: Seq<EnvVariableView>,
    existing: Seq<EnvVariableView>,
    root: Seq<EnvVariableView>,
) -> Seq<EnvVariableView> {
    (example.map_values(|e: EnvVariableView| with_saved(e, existing)) + not_in_example(
        existing,
        example,
    )).map_values(|e: EnvVariableView| synchronized_entry(e, root))
}

/// The variables of a frontend.
pub fn frontend_entries(
    example: &Vec<EnvVariable>,
    existing: &Vec<EnvVariable>,
    root: &Vec<EnvVariable>,
) -> (out: Vec<EnvVariable>)
    ensures
        env_views(out@) == frontend_variables(
            env_views(example@),
            env_views(existing@),
            env_views(root@),
        ),
{
    let ghost saved = env_views(existing@);
    let ghost first = env_views(example@).map_values(|e: EnvVariableView| with_saved(e, saved));
    let mut out: Vec<EnvVariable> = Vec::new();
    let mut i: usize = 0;
    while i < example.len()
        invariant
            i <= example@.len(),
            saved == env_views(existing@),
            out@.len() == i,
            forall|k: int| 0 <= k < i ==> (#[trigger] out@[k])@ == with_saved(example@[k]@, saved),
        decreases example@.len() - i,
    {
        let mut entry: EnvVariable = example[i].clone();
        let upper: String = to_ascii_upper(example[i].key.as_str());
        match last_position_of_upper_key(existing, upper.as_str()) {
            Some(k) => {
                entry.value = existing[k].value.clone();
                let comment: String = trimmed(existing[k].comment.as_str());
                if !comment.as_str().is_empty() {
                    entry.comment = existing[k].comment.clone();
                }
            },
            None => {},
        }
        proof {
            assert(entry@ =~= with_saved(example@[i as int]@, saved));
        }
        out.push(entry);
        i += 1;
    }
    let mut j: usize = 0;
    proof {
        assert(env_views(out@) =~= first);
        assert(saved.take(0) =~= Seq::<EnvVariableView>::empty());
        assert(env_views(out@) =~= first + not_in_example(saved.take(0), env_views(example@)));
    }
    while j < existing.len()
        invariant
            j <= existing@.len(),
            saved == env_views(existing@),
            env_views(out@) == first + not_in_example(saved.take(j as int), env_views(example@)),
        decreases existing@.len() - j,
    {
        let ghost before = env_views(out@);
        proof {
            assert(saved.take(j + 1).drop_last() =~= saved.take(j as int));
            assert(saved.take(j + 1).last() == existing@[j as int]@);
        }
        let upper: String = to_ascii_upper(existing[j].key.as_str());
        if position_of_upper_key(example, upper.as_str()).is_none() {
            out.push(existing[j].clone());
            proof {
                assert(env_views(out@) =~= before.push(existing@[j as int]@));
                assert(env_views(out@) =~= first + not_in_example(
                    saved.take(j as int),
                    env_views(example@),
                ).push(existing@[j as int]@));
            }
        }
        j += 1;
    }
    proof {
        assert(saved.take(j as int) =~= saved);
    }
    synchronize_env_entries(&mut out, root);
    out
}

} // verus!
