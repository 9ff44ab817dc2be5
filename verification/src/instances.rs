//! Instances: where they stand, what they offer and how they are found.
use vstd::prelude::*;
use vstd::string::*;

use crate::env::{env_views, EnvVariable, EnvVariableView};
use crate::model::{
    endpoint_views, instance_views, log_views, InstanceRecord, InstanceRecordView, LogEntry,
    LogEntryView, ServiceEndpoint, ServiceEndpointView,
};
use crate::paths::{join_path, path_below};
use crate::ports::service_views;
use crate::search::{contains, find, head, position, tail, text_has, trim, trimmed};
use crate::services::{
    first_env_port, frontend_name, gateway_name, is_frontend_name, is_gateway_name, is_studio_name,
    kind_of, service_display_name, service_env_port, service_kind, service_port_keys, shown_name,
    studio_name,
};
use crate::split::{lines, text_lines};
use crate::text::{
    ascii_lower, byte_len, chars_of, opt_text, owned, same, texts, to_ascii_lower, utf8_length,
    width_of,
};
use crate::unicode::{to_unicode_lower, unicode_lower};
use crate::urls::{replace_url_port, url_with_port};

verus! {

// ---------------------------------------------------------------------------------------------
// The directory of an instance
// ---------------------------------------------------------------------------------------------
/// What is known of a directory that an instance is to be created in.
#[derive(Debug)]
pub struct TargetFacts {
    pub exists: bool,
    pub is_dir: bool,
    /// Whether it holds anything, or why that could not be read.
    pub occupied: Result<bool, String>,
}

/// What stands against creating an instance in a directory.
pub open spec fn target_fault(facts: TargetFacts) -> Option<Seq<char>> {
    if !facts.exists {
        None
    } else if !facts.is_dir {
        Some("Target path is not a directory"@)
    } else {
        match facts.occupied {
            Err(error) => Some(error@),
            Ok(occupied) => if occupied {
                Some("Target directory must be empty"@)
            } else {
                None
            },
        }
    }
}

/// An instance is created in a new directory or in an empty one.
pub fn validate_target(facts: &TargetFacts) -> (r: Result<(), String>)
    ensures
        match r {
            Ok(_) => target_fault(*facts) is None,
            Err(message) => target_fault(*facts) == Some(message@),
        },
{
    if !facts.exists {
        return Ok(());
    }
    if !facts.is_dir {
        return Err(owned("Target path is not a directory"));
    }
    match &facts.occupied {
        Err(error) => Err(error.clone()),
        Ok(occupied) => if *occupied {
            Err(owned("Target directory must be empty"))
        } else {
            Ok(())
        },
    }
}

/// The character is no part of a path.
pub open spec fn splits_paths(c: char) -> bool {
    c == '/' || c == '\\' || c == '\0'
}

/// A name that cannot name one directory below another.
pub open spec fn leaves_parent(name: Seq<char>) -> bool {
    name == "."@ || name == ".."@ || exists|k: int|
        0 <= k < name.len() && splits_paths(#[trigger] name[k])
}

/// What the directory of an instance is called: that of its name below a parent.
pub open spec fn target_path(
    parent: Seq<char>,
    name: Seq<char>,
    separator: char,
) -> Result<Seq<char>, Seq<char>> {
    let n = trim(name);
    if n.len() == 0 {
        Err("Instance name cannot be empty"@)
    } else if leaves_parent(n) {
        Err("Instance name cannot contain path separators"@)
    } else {
        Ok(join_path(separator, parent, n))
    }
}

/// The directory of an instance.
pub fn instance_target_path(
    parent: &str,
    name: &str,
    separator: char,
) -> (r: Result<String, String>)
    ensures
        match r {
            Ok(path) => target_path(parent@, name@, separator) == Ok::<Seq<char>, Seq<char>>(path@),
            Err(message) => target_path(parent@, name@, separator) == Err::<Seq<char>, Seq<char>>(
                message@,
            ),
        },
{
    let n: String = trimmed(name);
    if n.as_str().is_empty() {
        return Err(owned("Instance name cannot be empty"));
    }
    let chars: Vec<char> = chars_of(n.as_str());
    let mut split: bool = false;
    let mut i: usize = 0;
    while i < chars.len()
        invariant
            i <= chars@.len(),
            chars@ == n@,
            split == exists|k: int| 0 <= k < i && splits_paths(#[trigger] n@[k]),
        decreases chars@.len() - i,
    {
        let c: char = chars[i];
        let before: bool = split;
        if c == '/' || c == '\\' || c == '\0' {
            split = true;
        }
        proof {
            if before {
                let k = choose|k: int| 0 <= k < i && splits_paths(#[trigger] n@[k]);
                assert(splits_paths(n@[k]));
            }
            assert(splits_paths(c) ==> splits_paths(n@[i as int]));
        }
        i += 1;
    }
    if same(n.as_str(), ".") || same(n.as_str(), "..") || split {
        return Err(owned("Instance name cannot contain path separators"));
    }
    Ok(path_below(separator, parent, n.as_str()))
}

/// What is known of an entry of a directory.
#[derive(Debug)]
pub struct EntryFacts {
    pub path: String,
    pub is_dir: bool,
    /// It holds a file called `.env.example`.
    pub has_example: bool,
}

/// The example of the first directory that has one.
pub open spec fn example_below(
    entries: Seq<EntryFacts>,
    i: int,
    separator: char,
) -> Option<Seq<char>>
    decreases entries.len() - i,
{
    if i < 0 || i >= entries.len() {
        None
    } else if entries[i].is_dir && entries[i].has_example {
        Some(join_path(separator, entries[i].path@, ".env.example"@))
    } else {
        example_below(entries, i + 1, separator)
    }
}

/// The example file of an instance: its own, or that of the first of its directories that has one.
pub fn find_env_example(
    root: &str,
    has_example: bool,
    entries: &Vec<EntryFacts>,
    separator: char,
) -> (r: Option<
    String,
>)
    ensures
        opt_text(r) == (if has_example {
            Some(join_path(separator, root@, ".env.example"@))
        } else {
            example_below(entries@, 0, separator)
        }),
{
    if has_example {
        return Some(path_below(separator, root, ".env.example"));
    }
    let mut i: usize = 0;
    while i < entries.len()
        invariant
            i <= entries@.len(),
            !has_example,
            example_below(entries@, 0, separator) == example_below(entries@, i as int, separator),
        decreases entries@.len() - i,
    {
        if entries[i].is_dir && entries[i].has_example {
            return Some(path_below(separator, entries[i].path.as_str(), ".env.example"));
        }
        i += 1;
    }
    None
}

// ---------------------------------------------------------------------------------------------
// Finding and changing records
// ---------------------------------------------------------------------------------------------
/// The position of the first instance with an id.
pub open spec fn index_of_instance(list: Seq<InstanceRecordView>, id: Seq<char>, i: int) -> Option<
    int,
>
    decreases list.len() - i,
{
    if i < 0 || i >= list.len() {
        None
    } else if list[i].id == id {
        Some(i)
    } else {
        index_of_instance(list, id, i + 1)
    }
}

/// The position of the first instance with an id.
pub fn position_of_instance(list: &Vec<InstanceRecord>, id: &str) -> (r: Option<usize>)
    ensures
        match r {
            Some(k) => k < list@.len() && index_of_instance(instance_views(list@), id@, 0) == Some(
                k as int,
            ),
            None => index_of_instance(instance_views(list@), id@, 0) is None,
        },
{
    let mut i: usize = 0;
    while i < list.len()
        invariant
            i <= list@.len(),
            index_of_instance(instance_views(list@), id@, 0) == index_of_instance(
                instance_views(list@),
                id@,
                i as int,
            ),
        decreases list@.len() - i,
    {
        if same(list[i].id.as_str(), id) {
            return Some(i);
        }
        i += 1;
    }
    None
}

/// The first instance with an id.
pub fn instance_by_id(list: &Vec<InstanceRecord>, id: &str) -> (r: Result<InstanceRecord, String>)
    ensures
        match (r, index_of_instance(instance_views(list@), id@, 0)) {
            (Ok(record), Some(k)) => record@ == instance_views(list@)[k],
            (Err(message), None) => message@ == "Instance not found"@,
            _ => false,
        },
{
    match position_of_instance(list, id) {
        Some(k) => Ok(list[k].clone()),
        None => Err(owned("Instance not found")),
    }
}

/// Puts a record in the place of the first with its id.
pub fn update_instance(list: &mut Vec<InstanceRecord>, record: &InstanceRecord) -> (r: Result<
    (),
    String,
>)
    ensures
        match (r, index_of_instance(instance_views(old(list)@), record@.id, 0)) {
            (Ok(_), Some(k)) => instance_views(final(list)@) == instance_views(old(list)@).update(
                k,
                record@,
            ),
            (Err(message), None) => message@ == "Instance not found"@ && final(list)@ == old(
                list,
            )@,
            _ => false,
        },
{
    match position_of_instance(list, record.id.as_str()) {
        Some(k) => {
            let ghost before = instance_views(list@);
            list.set(k, record.clone());
            proof {
                assert(instance_views(list@) =~= before.update(k as int, record@));
            }
            Ok(())
        },
        None => Err(owned("Instance not found")),
    }
}

/// The instances without those that have an id.
pub open spec fn without_instance(list: Seq<InstanceRecordView>, id: Seq<char>) -> Seq<
    InstanceRecordView,
> {
    list.filter(|i: InstanceRecordView| i.id != id)
}

/// Takes the instances that have an id out of a list.
pub fn remove_instance(list: &mut Vec<InstanceRecord>, id: &str)
    ensures
        instance_views(final(list)@) == without_instance(instance_views(old(list)@), id@),
{
    let ghost all = instance_views(list@);
    let mut out: Vec<InstanceRecord> = Vec::new();
    let mut i: usize = 0;
    proof {
        reveal(Seq::filter);
        assert(all.take(0) =~= Seq::<InstanceRecordView>::empty());
        assert(instance_views(out@) =~= Seq::<InstanceRecordView>::empty());
    }
    while i < list.len()
        invariant
            i <= list@.len(),
            all == instance_views(list@),
            instance_views(out@) == without_instance(all.take(i as int), id@),
        decreases list@.len() - i,
    {
        let ghost before = instance_views(out@);
        proof {
            reveal(Seq::filter);
            assert(all.take(i + 1).drop_last() =~= all.take(i as int));
            assert(all.take(i + 1).last() == list@[i as int]@);
        }
        if !same(list[i].id.as_str(), id) {
            out.push(list[i].clone());
            proof {
                assert(instance_views(out@) =~= before.push(list@[i as int]@));
            }
        }
        i += 1;
    }
    proof {
        assert(all.take(i as int) =~= all);
    }
    *list = out;
}

/// The log without what an instance printed while it ran.
pub open spec fn without_runtime_logs(logs: Seq<LogEntryView>, id: Seq<char>) -> Seq<LogEntryView> {
    logs.filter(|l: LogEntryView| !(l.instance_id == Some(id) && l.category == "runtime"@))
}

/// Takes what an instance printed while it ran out of the log.
pub fn remove_runtime_logs(logs: &mut Vec<LogEntry>, id: &str)
    ensures
        log_views(final(logs)@) == without_runtime_logs(log_views(old(logs)@), id@),
{
    let ghost all = log_views(logs@);
    let mut out: Vec<LogEntry> = Vec::new();
    let mut i: usize = 0;
    proof {
        reveal(Seq::filter);
        assert(all.take(0) =~= Seq::<LogEntryView>::empty());
        assert(log_views(out@) =~= Seq::<LogEntryView>::empty());
    }
    while i < logs.len()
        invariant
            i <= logs@.len(),
            all == log_views(logs@),
            log_views(out@) == without_runtime_logs(all.take(i as int), id@),
        decreases logs@.len() - i,
    {
        let ghost before = log_views(out@);
        proof {
            reveal(Seq::filter);
            assert(all.take(i + 1).drop_last() =~= all.take(i as int));
            assert(all.take(i + 1).last() == logs@[i as int]@);
        }
        let of_instance: bool = match &logs[i].instance_id {
            Some(owner) => same(owner.as_str(), id),
            None => false,
        };
        if !(of_instance && same(logs[i].category.as_str(), "runtime")) {
            out.push(logs[i].clone());
            proof {
                assert(log_views(out@) =~= before.push(logs@[i as int]@));
            }
        }
        i += 1;
    }
    proof {
        assert(all.take(i as int) =~= all);
    }
    *logs = out;
}

/// A new record in a list of which the newest come first: behind those that are at least as new.
pub open spec fn insert_newest(list: Seq<InstanceRecordView>, x: InstanceRecordView) -> Seq<
    InstanceRecordView,
>
    decreases list.len(),
{
    if list.len() == 0 || list.last().created_at >= x.created_at {
        list.push(x)
    } else {
        insert_newest(list.drop_last(), x).push(list.last())
    }
}

/// The instances, the newest first; those of one time keep their order.
pub open spec fn newest_first(list: Seq<InstanceRecordView>) -> Seq<InstanceRecordView>
    decreases list.len(),
{
    if list.len() == 0 {
        list
    } else {
        insert_newest(newest_first(list.drop_last()), list.last())
    }
}

/// The instances, the newest first; those of one time keep their order.
pub fn sort_instances(list: &Vec<InstanceRecord>) -> (out: Vec<InstanceRecord>)
    ensures
        instance_views(out@) == newest_first(instance_views(list@)),
{
    let ghost all = instance_views(list@);
    let mut out: Vec<InstanceRecord> = Vec::new();
    let mut i: usize = 0;
    proof {
        assert(all.take(0) =~= Seq::<InstanceRecordView>::empty());
        assert(instance_views(out@) =~= Seq::<InstanceRecordView>::empty());
    }
    while i < list.len()
        invariant
            i <= list@.len(),
            all == instance_views(list@),
            instance_views(out@) == newest_first(all.take(i as int)),
        decreases list@.len() - i,
    {
        proof {
            assert(all.take(i + 1).drop_last() =~= all.take(i as int));
            assert(all.take(i + 1).last() == list@[i as int]@);
        }
        let ghost before = instance_views(out@);
        let ghost x = list@[i as int]@;
        let mut p: usize = out.len();
        proof {
            assert(before.take(p as int) =~= before);
            assert(insert_newest(before, x) + before.skip(p as int) =~= insert_newest(before, x));
        }
        while p > 0 && out[p - 1].created_at < list[i].created_at
            invariant
                p <= out@.len(),
                i < list@.len(),
                x == list@[i as int]@,
                before == instance_views(out@),
                insert_newest(before, x) == insert_newest(before.take(p as int), x) + before.skip(
                    p as int,
                ),
            decreases p,
        {
            proof {
                assert(before.take(p as int).drop_last() =~= before.take(p - 1));
                assert(before.take(p as int).last() == before[p - 1]);
                assert(insert_newest(before.take(p - 1), x).push(before[p - 1]) + before.skip(
                    p as int,
                ) =~= insert_newest(before.take(p - 1), x) + before.skip(p - 1));
            }
            p -= 1;
        }
        proof {
            if p > 0 {
                assert(before.take(p as int).last() == out@[p - 1]@);
            }
            assert(insert_newest(before.take(p as int), x) == before.take(p as int).push(x));
        }
        out.insert(p, list[i].clone());
        proof {
            assert(instance_views(out@) =~= before.take(p as int).push(x) + before.skip(p as int));
        }
        i += 1;
    }
    proof {
        assert(all.take(i as int) =~= all);
    }
    out
}

proof fn lemma_insert_newest(list: Seq<InstanceRecordView>, x: InstanceRecordView)
    requires
        forall|i: int, j: int|
            0 <= i < j < list.len() ==> list[i].created_at >= list[j].created_at,
    ensures
        forall|i: int, j: int|
            0 <= i < j < insert_newest(list, x).len() ==> insert_newest(list, x)[i].created_at
                >= insert_newest(list, x)[j].created_at,
        insert_newest(list, x).to_multiset() == list.to_multiset().insert(x),
        insert_newest(list, x).len() == list.len() + 1,
    decreases list.len(),
{
    broadcast use vstd::seq_lib::group_to_multiset_ensures;

    if list.len() > 0 && list.last().created_at < x.created_at {
        let rest = list.drop_last();
        lemma_insert_newest(rest, x);
        assert(list =~= rest.push(list.last()));
        let t = insert_newest(rest, x);
        assert forall|i: int| 0 <= i < t.len() implies t[i].created_at >= list.last().created_at by {
            assert(t.to_multiset().count(t[i]) > 0);
            if t[i] != x {
                assert(rest.to_multiset().count(t[i]) > 0);
                let k = choose|k: int| 0 <= k < rest.len() && rest[k] == t[i];
                assert(list[k] == t[i]);
            }
        }
        assert(insert_newest(list, x).to_multiset() =~= list.to_multiset().insert(x));
    }
}

/// The list of instances holds every instance, and none stands before a newer one.
pub proof fn law_newest_come_first(list: Seq<InstanceRecordView>)
    ensures
        forall|i: int, j: int|
            0 <= i < j < newest_first(list).len() ==> newest_first(list)[i].created_at
                >= newest_first(list)[j].created_at,
        newest_first(list).to_multiset() == list.to_multiset(),
    decreases list.len(),
{
    broadcast use vstd::seq_lib::group_to_multiset_ensures;

    if list.len() > 0 {
        law_newest_come_first(list.drop_last());
        lemma_insert_newest(newest_first(list.drop_last()), list.last());
        assert(list =~= list.drop_last().push(list.last()));
    }
}

// ---------------------------------------------------------------------------------------------
// A new instance
// ---------------------------------------------------------------------------------------------
/// An instance has this name.
pub open spec fn name_is_taken(list: Seq<InstanceRecordView>, name: Seq<char>) -> bool {
    exists|k: int| 0 <= k < list.len() && (#[trigger] list[k]).name == name
}

/// What stands against the name and the place of a new instance.
pub open spec fn new_instance_fault(
    name: Seq<char>,
    target_dir: Seq<char>,
    instances: Seq<InstanceRecordView>,
) -> Option<Seq<char>> {
    if trim(name).len() == 0 {
        Some("Instance name cannot be empty"@)
    } else if name_is_taken(instances, trim(name)) {
        Some("Instance name already exists"@)
    } else if trim(target_dir).len() == 0 {
        Some("Instance working directory cannot be empty"@)
    } else {
        None
    }
}

/// Checks the name and the place of a new instance.
pub fn check_new_instance(name: &str, target_dir: &str, instances: &Vec<InstanceRecord>) -> (r:
    Result<(), String>)
    ensures
        match r {
            Ok(_) => new_instance_fault(name@, target_dir@, instance_views(instances@)) is None,
            Err(message) => new_instance_fault(name@, target_dir@, instance_views(instances@))
                == Some(message@),
        },
{
    let n: String = trimmed(name);
    if n.as_str().is_empty() {
        return Err(owned("Instance name cannot be empty"));
    }
    let ghost all = instance_views(instances@);
    let mut i: usize = 0;
    while i < instances.len()
        invariant
            i <= instances@.len(),
            all == instance_views(instances@),
            n@ == trim(name@),
            n@.len() > 0,
            forall|k: int| 0 <= k < i ==> (#[trigger] all[k]).name != n@,
        decreases instances@.len() - i,
    {
        proof {
            assert(all[i as int] == instances@[i as int]@);
        }
        if same(instances[i].name.as_str(), n.as_str()) {
            return Err(owned("Instance name already exists"));
        }
        i += 1;
    }
    let directory: String = trimmed(target_dir);
    if directory.as_str().is_empty() {
        return Err(owned("Instance working directory cannot be empty"));
    }
    Ok(())
}

/// The record of a new instance.
pub open spec fn new_record(
    id: Seq<char>,
    name: Seq<char>,
    template_id: Seq<char>,
    work_dir: Seq<char>,
    env_example: Seq<char>,
    note: Seq<char>,
    now: u64,
) -> InstanceRecordView {
    InstanceRecordView {
        id,
        name: trim(name),
        template_id,
        status: "configuring"@,
        deployment_mode: "local"@,
        work_dir,
        env_example_path: Some(env_example),
        env_path: None,
        note,
        created_at: now,
        updated_at: now,
        needs_doctor: false,
        pid: None,
        agent_url: None,
        ui_url: None,
        studio_url: None,
        project_name: Some(trim(name)),
        lifecycle_version: None,
        service_endpoints: seq![],
    }
}

/// The record of a new instance.
pub fn new_instance(
    id: &str,
    name: &str,
    template_id: &str,
    work_dir: &str,
    env_example: &str,
    note: &str,
    now: u64,
) -> (r: InstanceRecord)
    ensures
        r@ == new_record(id@, name@, template_id@, work_dir@, env_example@, note@, now),
{
    let n: String = trimmed(name);
    let service_endpoints: Vec<ServiceEndpoint> = Vec::new();
    proof {
        assert(endpoint_views(service_endpoints@) =~= Seq::<ServiceEndpointView>::empty());
    }
    InstanceRecord {
        id: owned(id),
        name: n.clone(),
        template_id: owned(template_id),
        status: owned("configuring"),
        deployment_mode: owned("local"),
        work_dir: owned(work_dir),
        env_example_path: Some(owned(env_example)),
        env_path: None,
        note: owned(note),
        created_at: now,
        updated_at: now,
        needs_doctor: false,
        pid: None,
        agent_url: None,
        ui_url: None,
        studio_url: None,
        project_name: Some(n),
        lifecycle_version: None,
        service_endpoints,
    }
}

/// The file of variables of an instance: the one it has, or `.env` in its directory.
pub open spec fn env_file_of(instance: InstanceRecordView, separator: char) -> Seq<char> {
    match instance.env_path {
        Some(path) => path,
        None => join_path(separator, instance.work_dir, ".env"@),
    }
}

/// The file of variables of an instance.
pub fn env_file_path(instance: &InstanceRecord, separator: char) -> (out: String)
    ensures
        out@ == env_file_of(instance@, separator),
{
    match &instance.env_path {
        Some(path) => path.clone(),
        None => path_below(separator, instance.work_dir.as_str(), ".env"),
    }
}

/// The file that the variables of an instance are shown from: its own, or its example.
pub fn readable_env_file(instance: &InstanceRecord) -> (r: Result<String, String>)
    ensures
        match r {
            Ok(path) => instance@.env_path == Some(path@) || (instance@.env_path is None
                && instance@.env_example_path == Some(path@)),
            Err(message) => instance@.env_path is None && instance@.env_example_path is None
                && message@ == "Instance has no readable environment variable file"@,
        },
{
    match &instance.env_path {
        Some(path) => Ok(path.clone()),
        None => match &instance.env_example_path {
            Some(path) => Ok(path.clone()),
            None => Err(owned("Instance has no readable environment variable file")),
        },
    }
}

// ---------------------------------------------------------------------------------------------
// The services of an instance
// ---------------------------------------------------------------------------------------------
/// What a lifecycle manifest declares of a project.
#[derive(Debug)]
pub struct LifecycleManifest {
    pub version: u32,
    pub name: String,
    /// Names and URLs.
    pub services: Vec<(String, String)>,
}

/// Where a service stands in the list of those of its instance.
pub open spec fn service_rank(name: Seq<char>) -> nat {
    let n = ascii_lower(name);
    if gateway_name(n) {
        0
    } else if frontend_name(n) {
        1
    } else if n == "copilotkit"@ || n == "runtime"@ {
        2
    } else if studio_name(n) {
        3
    } else {
        4
    }
}

fn rank_of_service(name: &str) -> (r: u8)
    ensures
        r == service_rank(name@),
{
    let lower: String = to_ascii_lower(name);
    let n: &str = lower.as_str();
    if is_gateway_name(n) {
        0
    } else if is_frontend_name(n) {
        1
    } else if same(n, "copilotkit") || same(n, "runtime") {
        2
    } else if is_studio_name(n) {
        3
    } else {
        4
    }
}

/// A service with the port that the variables give it.
pub open spec fn reached_service(
    service: (Seq<char>, Seq<char>),
    env: Seq<EnvVariableView>,
) -> (Seq<char>, Seq<char>) {
    match first_env_port(env, service_port_keys(service.0)) {
        Some(port) => (service.0, url_with_port(service.1, port)),
        None => service,
    }
}

/// The services that have a URL, with the ports that the variables give them.
pub open spec fn reached_services(
    services: Seq<(Seq<char>, Seq<char>)>,
    env: Seq<EnvVariableView>,
) -> Seq<(Seq<char>, Seq<char>)>
    decreases services.len(),
{
    if services.len() == 0 {
        seq![]
    } else {
        let rest = reached_services(services.drop_last(), env);
        if trim(services.last().1).len() == 0 {
            rest
        } else {
            rest.push(reached_service(services.last(), env))
        }
    }
}

/// The services of one rank.
pub open spec fn of_rank(services: Seq<(Seq<char>, Seq<char>)>, rank: nat) -> Seq<
    (Seq<char>, Seq<char>),
> {
    services.filter(|s: (Seq<char>, Seq<char>)| service_rank(s.0) == rank)
}

/// The services by their rank; those of one rank keep their order.
pub open spec fn ranked(services: Seq<(Seq<char>, Seq<char>)>) -> Seq<(Seq<char>, Seq<char>)> {
    of_rank(services, 0) + of_rank(services, 1) + of_rank(services, 2) + of_rank(services, 3)
        + of_rank(services, 4)
}

/// A service as it is shown.
pub open spec fn endpoint_of(service: (Seq<char>, Seq<char>)) -> ServiceEndpointView {
    ServiceEndpointView {
        name: shown_name(service.0),
        url: service.1,
        kind: kind_of(service.0).0,
        primary: kind_of(service.0).1,
    }
}

/// The URL of the last service of one rank, or else the URL that was known.
pub open spec fn url_of_rank(
    services: Seq<(Seq<char>, Seq<char>)>,
    rank: nat,
    known: Option<Seq<char>>,
) -> Option<Seq<char>> {
    let of = of_rank(services, rank);
    if of.len() == 0 {
        known
    } else {
        Some(of.last().1)
    }
}

/// An instance with what its manifest and its variables say of its services.
pub open spec fn enriched(
    instance: InstanceRecordView,
    version: u32,
    name: Seq<char>,
    services: Seq<(Seq<char>, Seq<char>)>,
    env: Seq<EnvVariableView>,
) -> InstanceRecordView {
    let reached = reached_services(services, env);
    InstanceRecordView {
        project_name: if instance.project_name is None && trim(name).len() > 0 {
            Some(name)
        } else {
            instance.project_name
        },
        lifecycle_version: if version > 0 {
            Some(version)
        } else {
            None
        },
        service_endpoints: ranked(reached).map_values(|s: (Seq<char>, Seq<char>)| endpoint_of(s)),
        agent_url: url_of_rank(reached, 0, instance.agent_url),
        ui_url: url_of_rank(reached, 1, instance.ui_url),
        studio_url: url_of_rank(reached, 3, instance.studio_url),
        ..instance
    }
}

fn reach_services(services: &Vec<(String, String)>, env: &Vec<EnvVariable>) -> (out: Vec<
    (String, String),
>)
    ensures
        service_views(out@) == reached_services(service_views(services@), env_views(env@)),
{
    let ghost all = service_views(services@);
    let mut out: Vec<(String, String)> = Vec::new();
    let mut i: usize = 0;
    proof {
        assert(all.take(0) =~= Seq::<(Seq<char>, Seq<char>)>::empty());
        assert(service_views(out@) =~= Seq::<(Seq<char>, Seq<char>)>::empty());
    }
    while i < services.len()
        invariant
            i <= services@.len(),
            all == service_views(services@),
            service_views(out@) == reached_services(all.take(i as int), env_views(env@)),
        decreases services@.len() - i,
    {
        let ghost before = service_views(out@);
        proof {
            assert(all.take(i + 1).drop_last() =~= all.take(i as int));
            assert(all.take(i + 1).last() == all[i as int]);
        }
        let t: String = trimmed(services[i].1.as_str());
        if !t.as_str().is_empty() {
            let url: String = match service_env_port(services[i].0.as_str(), env) {
                Some(port) => replace_url_port(services[i].1.as_str(), port),
                None => services[i].1.clone(),
            };
            let service: (String, String) = (services[i].0.clone(), url);
            let ghost added = (service.0@, service.1@);
            out.push(service);
            proof {
                assert(service_views(out@) =~= before.push(added));
                assert(added == reached_service(all[i as int], env_views(env@)));
            }
        }
        i += 1;
    }
    proof {
        assert(all.take(i as int) =~= all);
    }
    out
}

/// Puts the services of one rank behind what is there.
fn push_rank(out: &mut Vec<(String, String)>, services: &Vec<(String, String)>, rank: u8) -> (last:
    Option<String>)
    ensures
        service_views(final(out)@) == service_views(old(out)@) + of_rank(
            service_views(services@),
            rank as nat,
        ),
        opt_text(last) == url_of_rank(service_views(services@), rank as nat, None),
{
    let ghost all = service_views(services@);
    let ghost start = service_views(out@);
    let mut last: Option<String> = None;
    let mut i: usize = 0;
    proof {
        reveal(Seq::filter);
        assert(all.take(0) =~= Seq::<(Seq<char>, Seq<char>)>::empty());
        assert(start =~= start + of_rank(all.take(0), rank as nat));
    }
    while i < services.len()
        invariant
            i <= services@.len(),
            all == service_views(services@),
            service_views(out@) == start + of_rank(all.take(i as int), rank as nat),
            opt_text(last) == url_of_rank(all.take(i as int), rank as nat, None),
        decreases services@.len() - i,
    {
        let ghost before = service_views(out@);
        let ghost done = of_rank(all.take(i as int), rank as nat);
        proof {
            reveal(Seq::filter);
            assert(all.take(i + 1).drop_last() =~= all.take(i as int));
            assert(all.take(i + 1).last() == all[i as int]);
        }
        if rank_of_service(services[i].0.as_str()) == rank {
            out.push((services[i].0.clone(), services[i].1.clone()));
            last = Some(services[i].1.clone());
            proof {
                assert(service_views(out@) =~= before.push(all[i as int]));
                assert(before.push(all[i as int]) =~= start + done.push(all[i as int]));
            }
        }
        i += 1;
    }
    proof {
        assert(all.take(i as int) =~= all);
    }
    last
}

/// Adds to an instance what its manifest and its variables say of its services.
pub fn enrich_service_endpoints(
    instance: &mut InstanceRecord,
    manifest: &LifecycleManifest,
    env: &Vec<EnvVariable>,
)
    ensures
        final(instance)@ == enriched(
            old(instance)@,
            manifest.version,
            manifest.name@,
            service_views(manifest.services@),
            env_views(env@),
        ),
{
    let ghost before = instance@;
    let name: String = trimmed(manifest.name.as_str());
    if instance.project_name.is_none() && !name.as_str().is_empty() {
        instance.project_name = Some(manifest.name.clone());
    }
    instance.lifecycle_version = if manifest.version > 0 {
        Some(manifest.version)
    } else {
        None
    };
    let reached: Vec<(String, String)> = reach_services(&manifest.services, env);
    let mut order: Vec<(String, String)> = Vec::new();
    let agent: Option<String> = push_rank(&mut order, &reached, 0);
    let ui: Option<String> = push_rank(&mut order, &reached, 1);
    let _runtime: Option<String> = push_rank(&mut order, &reached, 2);
    let studio: Option<String> = push_rank(&mut order, &reached, 3);
    let _other: Option<String> = push_rank(&mut order, &reached, 4);
    let ghost all = ranked(service_views(reached@));
    proof {
        assert(service_views(order@) =~= all);
    }
    if agent.is_some() {
        instance.agent_url = agent;
    }
    if ui.is_some() {
        instance.ui_url = ui;
    }
    if studio.is_some() {
        instance.studio_url = studio;
    }
    let mut endpoints: Vec<ServiceEndpoint> = Vec::new();
    let mut i: usize = 0;
    while i < order.len()
        invariant
            i <= order@.len(),
            service_views(order@) == all,
            endpoints@.len() == i,
            forall|k: int| 0 <= k < i ==> (#[trigger] endpoints@[k])@ == endpoint_of(all[k]),
        decreases order@.len() - i,
    {
        let (kind, primary): (&'static str, bool) = service_kind(order[i].0.as_str());
        let endpoint: ServiceEndpoint = ServiceEndpoint {
            name: service_display_name(order[i].0.as_str()),
            url: order[i].1.clone(),
            kind: owned(kind),
            primary,
        };
        proof {
            assert(all[i as int] == (order@[i as int].0@, order@[i as int].1@));
            assert(endpoint@ =~= endpoint_of(all[i as int]));
        }
        endpoints.push(endpoint);
        i += 1;
    }
    proof {
        assert(endpoint_views(endpoints@) =~= all.map_values(
            |s: (Seq<char>, Seq<char>)| endpoint_of(s),
        ));
    }
    instance.service_endpoints = endpoints;
    proof {
        assert(instance@ =~= enriched(
            before,
            manifest.version,
            manifest.name@,
            service_views(manifest.services@),
            env_views(env@),
        ));
    }
}

// ---------------------------------------------------------------------------------------------
// URLs in the output of `agentseek info`
// ---------------------------------------------------------------------------------------------
/// The position in a text up to which it takes a number of bytes.
pub open spec fn position_at_byte(text: Seq<char>, n: nat, i: int) -> Option<int>
    decreases text.len() + 1 - i,
{
    if i < 0 || i > text.len() {
        None
    } else if byte_len(text.take(i)) == n {
        Some(i)
    } else {
        position_at_byte(text, n, i + 1)
    }
}

fn char_at_byte(text: &str, n: u128) -> (r: Option<usize>)
    ensures
        match r {
            Some(k) => k <= text@.len() && position_at_byte(text@, n as nat, 0) == Some(k as int),
            None => position_at_byte(text@, n as nat, 0) is None,
        },
{
    let chars: Vec<char> = chars_of(text);
    let mut width: u128 = 0;
    let mut i: usize = 0;
    while i < chars.len()
        invariant
            i <= chars@.len(),
            chars@ == text@,
            width == byte_len(text@.take(i as int)),
            width <= 4 * i,
            position_at_byte(text@, n as nat, 0) == position_at_byte(text@, n as nat, i as int),
        decreases chars@.len() - i,
    {
        if width == n {
            return Some(i);
        }
        proof {
            assert(text@.take(i + 1).drop_last() =~= text@.take(i as int));
        }
        width = width + width_of(chars[i]) as u128;
        i += 1;
    }
    if width == n {
        return Some(i);
    }
    proof {
        assert(position_at_byte(text@, n as nat, i + 1) is None);
    }
    None
}

/// The place of a line from which its URL is read: `http` stands there in the line in lower case,
/// whose length may differ.
pub open spec fn info_url_at(line: Seq<char>, lower: Seq<char>) -> Option<int> {
    match find(lower, "http"@) {
        Some(p) => position_at_byte(line, byte_len(lower.take(p)), 0),
        None => None,
    }
}

/// A line whose URL, if it has one, starts with a whole character.
pub open spec fn line_is_readable(line: Seq<char>, lower: Seq<char>) -> bool {
    contains(lower, "http"@) ==> info_url_at(line, lower) is Some
}

/// An instance with the URL that one line names.
pub open spec fn with_info_line(
    instance: InstanceRecordView,
    line: Seq<char>,
    lower: Seq<char>,
) -> InstanceRecordView {
    match info_url_at(line, lower) {
        None => instance,
        Some(k) => {
            let url = Some(trim(line.skip(k)));
            if contains(lower, "studio"@) || contains(lower, "langsmith"@) {
                InstanceRecordView { studio_url: url, ..instance }
            } else if contains(lower, "frontend"@) || contains(lower, " ui"@) {
                InstanceRecordView { ui_url: url, ..instance }
            } else if contains(lower, "agent"@) || contains(lower, "gateway"@)
                || instance.agent_url is None {
                InstanceRecordView { agent_url: url, ..instance }
            } else {
                instance
            }
        },
    }
}

/// Takes the URL over that one line names. `lower` is the line in lower case.
pub fn apply_info_line(instance: &mut InstanceRecord, line: &str, lower: &str)
    requires
        line_is_readable(line@, lower@),
    ensures
        final(instance)@ == with_info_line(old(instance)@, line@, lower@),
{
    let ghost before = instance@;
    let start: usize = match position(lower, "http") {
        Some(p) => {
            let offset: String = head(lower, p);
            match char_at_byte(line, utf8_length(offset.as_str())) {
                Some(k) => k,
                None => {
                    return ;
                },
            }
        },
        None => {
            return ;
        },
    };
    let rest: String = tail(line, start);
    let url: String = trimmed(rest.as_str());
    if text_has(lower, "studio") || text_has(lower, "langsmith") {
        instance.studio_url = Some(url);
    } else if text_has(lower, "frontend") || text_has(lower, " ui") {
        instance.ui_url = Some(url);
    } else if text_has(lower, "agent") || text_has(lower, "gateway")
        || instance.agent_url.is_none() {
        instance.agent_url = Some(url);
    }
    proof {
        assert(instance@ =~= with_info_line(before, line@, lower@));
    }
}

/// An instance with the URLs that lines name, from the first to the last.
pub open spec fn with_info_lines(instance: InstanceRecordView, list: Seq<Seq<char>>) -> InstanceRecordView
    decreases list.len(),
{
    if list.len() == 0 {
        instance
    } else {
        with_info_line(
            with_info_lines(instance, list.drop_last()),
            list.last(),
            unicode_lower(list.last()),
        )
    }
}

/// Every line names its URL from a whole character on.
pub open spec fn info_is_readable(output: Seq<char>) -> bool {
    forall|k: int|
        0 <= k < lines(output).len() ==> line_is_readable(
            #[trigger] lines(output)[k],
            unicode_lower(lines(output)[k]),
        )
}

/// Takes the URLs over that the output of `agentseek info` names.
pub fn apply_info_urls(instance: &mut InstanceRecord, output: &str)
    requires
        info_is_readable(output@),
    ensures
        final(instance)@ == with_info_lines(old(instance)@, lines(output@)),
{
    let list: Vec<String> = text_lines(output);
    let ghost all = lines(output@);
    let ghost start = instance@;
    let mut i: usize = 0;
    proof {
        assert(all.take(0) =~= Seq::<Seq<char>>::empty());
    }
    while i < list.len()
        invariant
            i <= list@.len(),
            texts(list@) == all,
            all == lines(output@),
            info_is_readable(output@),
            instance@ == with_info_lines(start, all.take(i as int)),
        decreases list@.len() - i,
    {
        proof {
            assert(all[i as int] == list@[i as int]@);
            assert(all.take(i + 1).drop_last() =~= all.take(i as int));
            assert(all.take(i + 1).last() == all[i as int]);
        }
        let lower: String = to_unicode_lower(list[i].as_str());
        apply_info_line(instance, list[i].as_str(), lower.as_str());
        i += 1;
    }
    proof {
        assert(all.take(i as int) =~= all);
    }
}

/// Takes the URLs over that the output of `agentseek info` names, unless one of them does not start
/// with a whole character. Says whether it did.
pub fn read_info_urls(instance: &mut InstanceRecord, output: &str) -> (done: bool)
    ensures
        done == info_is_readable(output@),
        done ==> final(instance)@ == with_info_lines(old(instance)@, lines(output@)),
        !done ==> final(instance)@ == old(instance)@,
{
    let list: Vec<String> = text_lines(output);
    let ghost all = lines(output@);
    let ghost start = instance@;
    let mut i: usize = 0;
    while i < list.len()
        invariant
            i <= list@.len(),
            texts(list@) == all,
            all == lines(output@),
            instance@ == start,
            start == old(instance)@,
            forall|k: int|
                0 <= k < i ==> line_is_readable(#[trigger] all[k], unicode_lower(all[k])),
        decreases list@.len() - i,
    {
        proof {
            assert(all[i as int] == list@[i as int]@);
        }
        let lower: String = to_unicode_lower(list[i].as_str());
        match position(lower.as_str(), "http") {
            Some(p) => {
                let offset: String = head(lower.as_str(), p);
                if char_at_byte(list[i].as_str(), utf8_length(offset.as_str())).is_none() {
                    proof {
                        crate::search::lemma_find(lower@, "http"@);
                        assert(!line_is_readable(all[i as int], unicode_lower(all[i as int])));
                    }
                    return false;
                }
            },
            None => {
                proof {
                    crate::search::lemma_find(lower@, "http"@);
                }
            },
        }
        i += 1;
    }
    apply_info_urls(instance, output);
    true
}

} // verus!
