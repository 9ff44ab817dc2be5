//! What holds of the files and the variables of a project as a whole.
use vstd::prelude::*;

use crate::commands::commands_in_step;
use crate::deploy::{
    manifest_with_ports, service_run, with_chosen_ports, with_service_urls,
    with_service_variables, with_tracing, NewPorts,
};
use crate::env::{last_with_key, EnvVariableView};
use crate::lifecycle::{manifest_in_step, name_line, name_run, names_project};
use crate::order::{law_sorted_texts, sorted_texts, texts_in_order};
use crate::paths::join_path;
use crate::port_laws::{holds_local_port, law_local_ports_are_apart, local_ports_differ};
use crate::ports::{local_url, resolved_conflicts, service_ports, service_views, PortChangeView};
use crate::projects::{
    all_new_ports, config_writes, described_name, env_files_of, env_names, example_names,
    export_fault, first_described_name, named_manifest, path_lines, port_change_message,
    prepared_variables, rechecked, renamed, saved_environment, write_if_changed, ExportFacts,
    ProjectFilesView, ReadManifest,
};
use crate::replace_laws::lemma_absent_is_not_replaced;
use crate::rows::concatenated;
use crate::search::{at, contains, starts_with, trim};
use crate::text::{ascii_upper, join, opt_text};
use crate::urls::url_with_port;
use crate::variable_laws::{
    is_first_named, is_longest_name, is_unnamed, law_every_service_has_its_variable,
    law_longest_name_is_called_for, law_tracing_is_off_by_default,
    law_urls_take_the_ports_of_services,
};

verus! {

// ---------------------------------------------------------------------------------------------
// Texts that are put together
// ---------------------------------------------------------------------------------------------
pub proof fn lemma_inside(before: Seq<char>, pat: Seq<char>, behind: Seq<char>)
    ensures
        contains(before + pat + behind, pat),
        contains(before + pat, pat),
{
    let s = before + pat + behind;
    let i = before.len() as int;
    assert(s.subrange(i, i + pat.len()) =~= pat);
    assert(at(s, pat, i));
    let t = before + pat;
    assert(t.subrange(i, i + pat.len()) =~= pat);
    assert(at(t, pat, i));
}

pub proof fn lemma_inside_part(before: Seq<char>, part: Seq<char>, behind: Seq<char>, pat: Seq<char>)
    requires
        contains(part, pat),
    ensures
        contains(before + part + behind, pat),
        contains(before + part, pat),
{
    let k = choose|k: int| at(part, pat, k);
    let s = before + part + behind;
    let i = before.len() + k;
    assert(s.subrange(i, i + pat.len()) =~= part.subrange(k, k + pat.len()));
    assert(at(s, pat, i));
    let t = before + part;
    assert(t.subrange(i, i + pat.len()) =~= part.subrange(k, k + pat.len()));
    assert(at(t, pat, i));
}

/// Joined texts hold every one of them.
pub proof fn law_joined_texts_are_all_there(parts: Seq<Seq<char>>, sep: Seq<char>, i: int)
    requires
        0 <= i < parts.len(),
    ensures
        contains(join(parts, sep), parts[i]),
    decreases parts.len(),
{
    let none = Seq::<char>::empty();
    if parts.len() == 1 {
        lemma_inside(none, parts[0], none);
        assert(none + parts[0] =~= parts[0]);
    } else {
        let rest = parts.drop_last();
        if i < rest.len() {
            law_joined_texts_are_all_there(rest, sep, i);
            assert(rest[i] == parts[i]);
            lemma_inside_part(none, join(rest, sep), sep + parts.last(), parts[i]);
            assert(none + join(rest, sep) + (sep + parts.last()) =~= join(rest, sep) + sep
                + parts.last());
        } else {
            lemma_inside(join(rest, sep) + sep, parts.last(), none);
        }
    }
}

/// A name is joined to a directory by one separator, and by none where the directory ends with one.
/// On Windows a name with a drive of its own stands for itself.
pub proof fn law_names_follow_their_directory(base: Seq<char>, name: Seq<char>)
    ensures
        base.len() > 0 && base.last() != '/' ==> join_path('/', base, name) == base + "/"@ + name,
        join_path('/', base.push('/'), name) == base + "/"@ + name,
        base.len() > 2 && base.last() != '/' && base.last() != '\\' && (name.len() < 2 || name[1]
            != ':') ==> join_path('\\', base, name) == base + "\\"@ + name,
{
    reveal_strlit("/");
    reveal_strlit("\\");
    assert(base + "/"@ + name =~= base.push('/') + name);
    assert(base + "\\"@ + name =~= base.push('\\') + name);
}

// ---------------------------------------------------------------------------------------------
// Saving variables
// ---------------------------------------------------------------------------------------------
/// Saving the variables of a deployed instance moves no port and touches no manifest: every variable
/// is saved as it was given, and tracing is off unless they say something of it.
pub proof fn law_deployed_instances_keep_their_ports(
    entries: Seq<EnvVariableView>,
    manifest: Option<ReadManifest>,
    reserved: Seq<u16>,
    free: Seq<u16>,
    spare: Seq<u16>,
)
    ensures
        saved_environment(entries, true, manifest, reserved, free, spare) matches Some(saved)
            && saved.changes.len() == 0 && saved.manifest is None && saved.entries.len()
            >= entries.len() && saved.entries.take(entries.len() as int) == entries && (is_unnamed(
            entries,
            "LANGSMITH_TRACING"@,
        ) ==> saved.entries.len() == entries.len() + 1 && saved.entries.last().key
            == "LANGSMITH_TRACING"@ && saved.entries.last().value == "false"@),
{
    law_tracing_is_off_by_default(entries);
    assert(entries.take(entries.len() as int) =~= entries);
}

/// Without a manifest the saved variables of an instance that is not deployed share no local port,
/// each of their local ports can be used, and only values were changed.
pub proof fn law_saved_ports_are_apart(
    entries: Seq<EnvVariableView>,
    reserved: Seq<u16>,
    free: Seq<u16>,
    spare: Seq<u16>,
)
    ensures
        saved_environment(entries, false, None, reserved, free, spare) is Some
            <==> resolved_conflicts(entries, free, spare) is Some,
        saved_environment(entries, false, None, reserved, free, spare) matches Some(saved) ==> {
            let list = saved.entries.take(entries.len() as int);
            &&& saved.manifest is None
            &&& saved.entries.len() >= entries.len()
            &&& local_ports_differ(list)
            &&& forall|i: int|
                0 <= i < entries.len() && holds_local_port(#[trigger] list[i]) ==> {
                    let p = crate::ports::port_value(list[i].value)->0 as u16;
                    p > 0 && free.contains(p) || spare.contains(p)
                }
            &&& forall|i: int| 0 <= i < entries.len() ==> (#[trigger] list[i]).key == entries[i].key
            &&& saved.changes == (resolved_conflicts(entries, free, spare)->0).1
        },
{
    law_local_ports_are_apart(entries, free, spare);
    crate::port_laws::law_other_variables_stay(entries, free, spare);
    match resolved_conflicts(entries, free, spare) {
        Some((out, changes)) => {
            law_tracing_is_off_by_default(out);
            assert(out.take(out.len() as int) =~= out);
        },
        None => {},
    }
}

/// With a manifest every service of it has its port in the saved variables and in the manifest that
/// is written, where the names of the services differ and none of them is one of a URL.
pub proof fn law_saved_services_have_their_ports(
    entries: Seq<EnvVariableView>,
    m: ReadManifest,
    reserved: Seq<u16>,
    free: Seq<u16>,
    spare: Seq<u16>,
)
    ensures
        saved_environment(entries, false, Some(m), reserved, free, spare) is Some <==> service_run(
            service_views(m.services@),
            entries,
            reserved,
            free,
            spare,
        ) is Some,
        service_run(service_views(m.services@), entries, reserved, free, spare) matches Some(run)
            ==> {
            let saved = saved_environment(entries, false, Some(m), reserved, free, spare)->0;
            &&& saved.changes == run.changes
            &&& saved.manifest == Some(
                manifest_with_ports(m.content@, service_views(m.services@), run.ports),
            )
            &&& (forall|k: int|
                0 <= k < run.ports.len() ==> ascii_upper((#[trigger] run.ports[k]).0)
                    == run.ports[k].0 && !contains(run.ports[k].0, "URL"@)) && (forall|
                k: int,
                n: int,
            |
                0 <= k < n < run.ports.len() ==> (#[trigger] run.ports[k]).0 != (
                #[trigger] run.ports[n]).0) ==> forall|k: int|
                0 <= k < run.ports.len() ==> exists|i: int|
                    is_first_named(saved.entries, (#[trigger] run.ports[k]).0, i) && (
                    #[trigger] saved.entries[i]).value == crate::number::decimal(
                        run.ports[k].1 as nat,
                    )
        },
{
    match service_run(service_views(m.services@), entries, reserved, free, spare) {
        Some(run) => {
            let saved = saved_environment(entries, false, Some(m), reserved, free, spare)->0;
            let set = with_service_variables(entries, run.ports);
            let urls = set.map_values(|e: EnvVariableView| with_service_urls(e, run.ports));
            law_tracing_is_off_by_default(urls);
            assert forall|i: int| 0 <= i < urls.len() implies (#[trigger] saved.entries[i])
                == urls[i] by {
                if is_unnamed(urls, "LANGSMITH_TRACING"@) {
                    assert(with_tracing(urls).take(urls.len() as int)[i] == with_tracing(urls)[i]);
                }
            }
            if (forall|k: int|
                0 <= k < run.ports.len() ==> ascii_upper((#[trigger] run.ports[k]).0)
                    == run.ports[k].0 && !contains(run.ports[k].0, "URL"@)) && (forall|
                k: int,
                n: int,
            |
                0 <= k < n < run.ports.len() ==> (#[trigger] run.ports[k]).0 != (
                #[trigger] run.ports[n]).0) {
                law_every_service_has_its_variable(entries, run.ports);
                assert forall|k: int| 0 <= k < run.ports.len() implies exists|i: int|
                    is_first_named(saved.entries, (#[trigger] run.ports[k]).0, i) && (
                    #[trigger] saved.entries[i]).value == crate::number::decimal(
                        run.ports[k].1 as nat,
                    ) by {
                    let key = run.ports[k].0;
                    let i = choose|i: int|
                        is_first_named(set, key, i) && (#[trigger] set[i]).value
                            == crate::number::decimal(run.ports[k].1 as nat);
                    assert forall|j: int| 0 <= j <= i implies (#[trigger] urls[j]).key
                        == set[j].key by {
                        law_urls_take_the_ports_of_services(set[j], run.ports, 0);
                    }
                    law_urls_take_the_ports_of_services(set[i], run.ports, 0);
                    assert(urls[i] == set[i]);
                    assert forall|j: int| 0 <= j < i implies ascii_upper(
                        (#[trigger] saved.entries[j]).key,
                    ) != key by {
                        assert(saved.entries[j] == urls[j]);
                        assert(ascii_upper(set[j].key) != key);
                    }
                    assert(saved.entries[i] == urls[i]);
                    assert(is_first_named(saved.entries, key, i));
                }
            }
        },
        None => {},
    }
}

/// Before an instance is deployed its local ports are apart, and each URL variable of this machine
/// takes the port that its manifest names for the service with the longest name in its own.
pub proof fn law_variables_are_checked_again(
    entries: Seq<EnvVariableView>,
    services: Seq<(Seq<char>, Seq<char>)>,
    free: Seq<u16>,
    spare: Seq<u16>,
    i: int,
    m: int,
)
    requires
        0 <= i < entries.len(),
    ensures
        rechecked(entries, services, free, spare) is Some <==> resolved_conflicts(
            entries,
            free,
            spare,
        ) is Some,
        rechecked(entries, services, free, spare) matches Some((out, changes)) ==> {
            let apart = (resolved_conflicts(entries, free, spare)->0).0;
            let key = ascii_upper(entries[i].key);
            let named = service_ports(services);
            &&& changes == (resolved_conflicts(entries, free, spare)->0).1
            &&& local_ports_differ(apart)
            &&& out.len() == entries.len()
            &&& out[i].key == entries[i].key
            &&& contains(key, "URL"@) && local_url(apart[i].value) && is_longest_name(named, key, m)
                ==> out[i].value == url_with_port(apart[i].value, named[m].1 as nat)
            &&& !contains(key, "URL"@) ==> out[i] == apart[i]
        },
{
    law_local_ports_are_apart(entries, free, spare);
    crate::port_laws::law_other_variables_stay(entries, free, spare);
    match resolved_conflicts(entries, free, spare) {
        Some((apart, changes)) => {
            law_longest_name_is_called_for(apart[i], service_ports(services), m);
        },
        None => {},
    }
}

/// The variables of a new instance take what the vault holds: a variable whose last value in the
/// vault is not blank has that value, and any other has the one that its example and its ports give.
pub proof fn law_new_instances_take_from_the_vault(
    example: Seq<EnvVariableView>,
    run: NewPorts,
    vault: Seq<EnvVariableView>,
    i: int,
    k: int,
)
    ensures
        ({
            let own = with_tracing(with_chosen_ports(example, run.ports, run.changes));
            let out = prepared_variables(example, run, vault);
            &&& out.len() == own.len()
            &&& 0 <= i < own.len() ==> out[i].key == own[i].key
            &&& 0 <= i < own.len() && 0 <= k < vault.len() && vault[k].key == own[i].key && (forall|
                j: int,
            |
                k < j < vault.len() ==> (#[trigger] vault[j]).key != own[i].key) ==> if trim(
                vault[k].value,
            ).len() > 0 {
                out[i].value == vault[k].value && out[i].source == "vault"@
            } else {
                out[i].value == own[i].value && out[i].source == own[i].source
            }
            &&& 0 <= i < own.len() && (forall|j: int|
                0 <= j < vault.len() ==> (#[trigger] vault[j]).key != own[i].key) ==> out[i]
                == own[i]
        }),
{
    let own = with_tracing(with_chosen_ports(example, run.ports, run.changes));
    if 0 <= i < own.len() {
        if 0 <= k < vault.len() && vault[k].key == own[i].key && (forall|j: int|
            k < j < vault.len() ==> (#[trigger] vault[j]).key != own[i].key) {
            lemma_last_key(vault, own[i].key, k);
        }
        if forall|j: int| 0 <= j < vault.len() ==> (#[trigger] vault[j]).key != own[i].key {
            lemma_no_key(vault, own[i].key);
        }
    }
}

pub proof fn lemma_last_key(list: Seq<EnvVariableView>, key: Seq<char>, k: int)
    requires
        0 <= k < list.len(),
        list[k].key == key,
        forall|j: int| k < j < list.len() ==> (#[trigger] list[j]).key != key,
    ensures
        last_with_key(list, key) == Some(list[k]),
    decreases list.len(),
{
    if k < list.len() - 1 {
        assert(list[list.len() - 1].key != key);
        assert forall|j: int| k < j < list.drop_last().len() implies (
        #[trigger] list.drop_last()[j]).key != key by {
            assert(list[j].key != key);
        }
        lemma_last_key(list.drop_last(), key, k);
    }
}

pub proof fn lemma_no_key(list: Seq<EnvVariableView>, key: Seq<char>)
    requires
        forall|j: int| 0 <= j < list.len() ==> (#[trigger] list[j]).key != key,
    ensures
        last_with_key(list, key) is None,
    decreases list.len(),
{
    if list.len() > 0 {
        assert(list[list.len() - 1].key != key);
        assert forall|j: int| 0 <= j < list.drop_last().len() implies (
        #[trigger] list.drop_last()[j]).key != key by {
            assert(list[j].key != key);
        }
        lemma_no_key(list.drop_last(), key);
    }
}

/// A new instance without a manifest has the ports that its template described, and no other.
pub proof fn law_described_ports_are_enough(
    ports: Seq<(Seq<char>, u16)>,
    changes: Seq<PortChangeView>,
    reserved: Seq<u16>,
    free: Seq<u16>,
    spare: Seq<u16>,
)
    ensures
        all_new_ports(None, ports, changes, reserved, free, spare) matches Some(run) && run.ports
            == ports && run.changes == changes,
{
}

// ---------------------------------------------------------------------------------------------
// Files
// ---------------------------------------------------------------------------------------------
/// A file is written exactly where that changes what it holds.
pub proof fn law_unchanged_files_are_not_written(
    path: Seq<char>,
    current: Option<Seq<char>>,
    updated: Seq<char>,
)
    ensures
        write_if_changed(path, current, updated).len() <= 1,
        write_if_changed(path, current, updated).contains((path, updated)) <==> current != Some(
            updated,
        ),
{
    if current != Some(updated) {
        assert(write_if_changed(path, current, updated)[0] == (path, updated));
    }
}

/// Files that a project does not have are not written, but for the variables of a frontend that has
/// an example of them. The manifest that is written has the name of the project and the ports of the
/// variables.
pub proof fn law_only_files_of_the_project_are_written(
    root: Seq<char>,
    name: Seq<char>,
    files: ProjectFilesView,
    env: Seq<EnvVariableView>,
    separator: char,
    k: int,
)
    requires
        0 <= k < config_writes(root, name, files, env, separator).len(),
    ensures
        ({
            let write = config_writes(root, name, files, env, separator)[k];
            let manifest = join_path(separator, root, ".agentseek/lifecycle.toml"@);
            ||| files.lifecycle is Some && write == (
                manifest,
                commands_in_step(
                    manifest_in_step(named_manifest(files.lifecycle->0, name), env),
                    env,
                ),
            )
            ||| files.frontend_example is Some && write.0 == join_path(
                separator,
                root,
                "frontend/.env"@,
            ) && files.frontend_env != Some(write.1)
            ||| files.compose is Some && write.0 == join_path(
                separator,
                root,
                "docker-compose.yml"@,
            ) && files.compose != Some(write.1)
        }),
{
}

/// What is said of changed ports names the file of the variables and every file that was written.
pub proof fn law_written_files_are_told(
    opening: Seq<char>,
    changes: Seq<PortChangeView>,
    env_path: Seq<char>,
    paths: Seq<Seq<char>>,
    i: int,
)
    ensures
        ({
            let said = port_change_message(opening, changes, env_path, paths);
            &&& starts_with(said, opening)
            &&& contains(said, env_path)
            &&& 0 <= i < paths.len() ==> contains(said, "  "@ + paths[i])
            &&& 0 <= i < changes.len() ==> contains(said, crate::ports::change_line(changes[i]))
        }),
{
    let none = Seq::<char>::empty();
    let said = port_change_message(opening, changes, env_path, paths);
    let lines = changes.map_values(|c: PortChangeView| crate::ports::change_line(c));
    let one = "\nPort changes:\n"@;
    let two = "\nSynced files:\n  "@;
    let tail = path_lines(paths);
    assert(said =~= opening + (one + join(lines, "\n"@) + two + env_path + "\n"@ + tail));
    assert(said.take(opening.len() as int) =~= opening);
    lemma_inside(opening + one + join(lines, "\n"@) + two, env_path, "\n"@ + tail);
    assert(said =~= opening + one + join(lines, "\n"@) + two + env_path + ("\n"@ + tail));
    if 0 <= i < paths.len() {
        let rows = paths.map_values(|p: Seq<char>| "  "@ + p);
        law_joined_texts_are_all_there(rows, "\n"@, i);
        lemma_inside_part(
            opening + one + join(lines, "\n"@) + two + env_path + "\n"@,
            tail,
            none,
            "  "@ + paths[i],
        );
    }
    if 0 <= i < changes.len() {
        law_joined_texts_are_all_there(lines, "\n"@, i);
        let behind = two + env_path + "\n"@ + tail;
        lemma_inside_part(
            opening + one,
            join(lines, "\n"@),
            behind,
            crate::ports::change_line(changes[i]),
        );
        assert(said =~= opening + one + join(lines, "\n"@) + behind);
    }
}

/// The first line that names a project before any section is set to the new name; all lines before it
/// stay, and so do all behind it.
pub proof fn law_first_name_is_set(
    before: Seq<Seq<char>>,
    line: Seq<char>,
    behind: Seq<Seq<char>>,
    quoted: Seq<char>,
)
    requires
        forall|k: int|
            0 <= k < before.len() ==> !starts_with(trim(#[trigger] before[k]), "["@) && name_line(
                before[k],
                quoted,
            ) == before[k] && !names_project(before[k]),
        !starts_with(trim(line), "["@),
        names_project(line),
    ensures
        name_run(before.push(line) + behind, quoted).output == concatenated(before) + name_line(
            line,
            quoted,
        ) + concatenated(behind),
{
    lemma_unnamed(before, quoted);
    let all = before.push(line);
    assert(all.drop_last() =~= before);
    assert(name_run(all, quoted).found);
    crate::lifecycle::law_project_is_named_once(all, behind, quoted);
}

proof fn lemma_unnamed(before: Seq<Seq<char>>, quoted: Seq<char>)
    requires
        forall|k: int|
            0 <= k < before.len() ==> !starts_with(trim(#[trigger] before[k]), "["@) && name_line(
                before[k],
                quoted,
            ) == before[k] && !names_project(before[k]),
    ensures
        name_run(before, quoted).in_root,
        !name_run(before, quoted).found,
        name_run(before, quoted).output == concatenated(before),
    decreases before.len(),
{
    if before.len() > 0 {
        let rest = before.drop_last();
        assert forall|k: int| 0 <= k < rest.len() implies !starts_with(
            trim(#[trigger] rest[k]),
            "["@,
        ) && name_line(rest[k], quoted) == rest[k] && !names_project(rest[k]) by {
            assert(rest[k] == before[k]);
        }
        lemma_unnamed(rest, quoted);
        let last = before[before.len() - 1];
        assert(!starts_with(trim(last), "["@));
    }
}

/// The name of a template's project is what stands behind `project_name:` on the first line that
/// starts so.
pub proof fn law_first_described_name_counts(list: Seq<Seq<char>>, i: int)
    requires
        0 <= i <= list.len(),
        forall|j: int|
            0 <= j < i ==> !starts_with(trim(#[trigger] list[j]), "project_name:"@),
    ensures
        i == list.len() ==> first_described_name(list, 0) is None,
        i < list.len() && starts_with(trim(list[i]), "project_name:"@) ==> first_described_name(
            list,
            0,
        ) == Some(trim(trim(list[i]).skip(13))),
{
    reveal_strlit("project_name:");
    assert("project_name:"@.len() == 13);
    lemma_described(list, 0, i);
}

proof fn lemma_described(list: Seq<Seq<char>>, from: int, i: int)
    requires
        0 <= from <= i <= list.len(),
        forall|j: int|
            from <= j < i ==> !starts_with(trim(#[trigger] list[j]), "project_name:"@),
    ensures
        first_described_name(list, from) == first_described_name(list, i),
    decreases i - from,
{
    if from < i {
        assert(described_name(list[from]) is None);
        lemma_described(list, from + 1, i);
    }
}

/// A file that does not hold the name of the template's project stays as it is.
pub proof fn law_other_files_keep_their_names(
    content: Seq<char>,
    name: Seq<char>,
    new_name: Seq<char>,
)
    requires
        name.len() > 0,
        !contains(content, name),
    ensures
        renamed(content, name, new_name) == content,
{
    lemma_absent_is_not_replaced(content, name, new_name);
}

/// Variables are exported exactly from a file whose name starts with `.env`, to an absolute path with
/// a name that is not blank in a directory that is there.
pub proof fn law_exports_that_are_allowed(facts: ExportFacts)
    ensures
        export_fault(facts) is None <==> facts.source_is_file && facts.source_name is Some
            && starts_with(facts.source_name->0@, ".env"@) && facts.output_is_absolute
            && facts.output_name is Some && trim(facts.output_name->0@).len() > 0
            && facts.output_directory_exists,
{
    assert(opt_text(facts.source_name) is Some <==> facts.source_name is Some);
    assert(opt_text(facts.output_name) is Some <==> facts.output_name is Some);
}

/// The files of variables of a directory are exactly those whose names start with `.env`: the example
/// comes first, and the others follow in the order of their names.
pub proof fn law_files_of_variables(
    directory: Seq<char>,
    names: Seq<Seq<char>>,
    separator: char,
    name: Seq<char>,
)
    ensures
        ({
            let files = env_files_of(directory, names, separator);
            let first = names.filter(|n: Seq<char>| n == ".env.example"@);
            let others = names.filter(|n: Seq<char>| starts_with(n, ".env"@) && n != ".env.example"@);
            let ordered = sorted_texts(others);
            &&& files.len() == first.len() + others.len()
            &&& names.contains(name) && starts_with(name, ".env"@) ==> files.contains(
                join_path(separator, directory, name),
            )
            &&& forall|i: int|
                0 <= i < first.len() ==> #[trigger] files[i] == join_path(
                    separator,
                    directory,
                    ".env.example"@,
                )
            &&& forall|i: int|
                0 <= i < ordered.len() ==> files[first.len() + i] == join_path(
                    separator,
                    directory,
                    #[trigger] ordered[i],
                )
            &&& texts_in_order(ordered) && ordered.to_multiset() == others.to_multiset()
        }),
{
    let files = env_files_of(directory, names, separator);
    let is_example = |n: Seq<char>| n == ".env.example"@;
    let is_other = |n: Seq<char>| starts_with(n, ".env"@) && n != ".env.example"@;
    let first = names.filter(is_example);
    let others = names.filter(is_other);
    assert(first =~= example_names(names));
    assert(others =~= env_names(names));
    let ordered = sorted_texts(others);
    law_sorted_texts(others);
    ordered.to_multiset_ensures();
    others.to_multiset_ensures();
    assert forall|i: int| 0 <= i < first.len() implies #[trigger] files[i] == join_path(
        separator,
        directory,
        ".env.example"@,
    ) by {
        names.lemma_filter_pred(is_example, i);
        assert(first[i] == ".env.example"@);
    }
    if names.contains(name) && starts_with(name, ".env"@) {
        let k = choose|k: int| 0 <= k < names.len() && names[k] == name;
        if name == ".env.example"@ {
            names.lemma_filter_contains(is_example, k);
            let i = choose|i: int| 0 <= i < first.len() && first[i] == name;
            assert(files[i] == join_path(separator, directory, name));
        } else {
            names.lemma_filter_contains(is_other, k);
            assert(others.contains(name));
            assert(others.to_multiset().count(name) > 0);
            assert(ordered.contains(name));
            let i = choose|i: int| 0 <= i < ordered.len() && ordered[i] == name;
            assert(files[first.len() + i] == join_path(separator, directory, name));
        }
    }
}

} // verus!
