//! The files of an instance, kept in step with its variables.
use vstd::prelude::*;
use vstd::string::*;

use crate::commands::{commands_in_step, sync_process_command_ports};
use crate::compose::{compose_in_step, sync_docker_compose_port_mappings};
use crate::deploy::{
    apply_chosen_ports, apply_service_ports, assign_service_ports, ensure_tracing_choice,
    frontend_entries, frontend_variables, manifest_with_ports, new_ports_run, new_ports_start,
    port_settling, resolve_lifecycle_ports, service_run, with_chosen_ports, with_service_urls,
    with_service_variables, with_tracing, LifecyclePorts, NewPorts, PortSettling,
};
use crate::env::{
    env_entries, env_file, env_views, is_env_file_name, merge_env_entries, merged_entry, parse_env,
    render_env, EnvVariable, EnvVariableView,
};
use crate::lifecycle::{
    long_quote_run, manifest_in_step, manifest_with_name, synchronize_lifecycle_content,
    synchronize_lifecycle_project_name_content, toml_string,
};
use crate::model::copy_opt;
use crate::order::{sort_texts, sorted_texts};
use crate::paths::{join_path, path_below};
use crate::ports::{
    change_line, change_views, port_change_details, port_views, resolve_port_conflicts,
    resolved_conflicts, service_ports, service_views, sync_env_urls_from_lifecycle, with_named_port,
    NoSparePort, PortChange, PortChangeView,
};
use crate::search::{contains, starts_with, text_has, trim, trimmed, without_prefix};
use crate::split::{lines, replace_all, replaced, text_lines};
use crate::text::{chars_of, join, join_texts, opt_text, owned, same, texts};

verus! {

// ---------------------------------------------------------------------------------------------
// Files in step with the variables
// ---------------------------------------------------------------------------------------------
/// The files of an instance that follow its variables, as far as they exist.
#[derive(Debug)]
pub struct ProjectFiles {
    /// `.agentseek/lifecycle.toml`
    pub lifecycle: Option<String>,
    /// `frontend/.env.example`
    pub frontend_example: Option<String>,
    /// `frontend/.env`
    pub frontend_env: Option<String>,
    /// `docker-compose.yml`
    pub compose: Option<String>,
}

/// What [`ProjectFiles`] hold.
#[verifier::ext_equal]
pub struct ProjectFilesView {
    pub lifecycle: Option<Seq<char>>,
    pub frontend_example: Option<Seq<char>>,
    pub frontend_env: Option<Seq<char>>,
    pub compose: Option<Seq<char>>,
}

impl View for ProjectFiles {
    type V = ProjectFilesView;

    open spec fn view(&self) -> ProjectFilesView {
        ProjectFilesView {
            lifecycle: opt_text(self.lifecycle),
            frontend_example: opt_text(self.frontend_example),
            frontend_env: opt_text(self.frontend_env),
            compose: opt_text(self.compose),
        }
    }
}

/// A file that is to be written.
#[derive(Debug)]
pub struct FileWrite {
    pub path: String,
    pub content: String,
}

/// The files of a list: paths and contents.
pub open spec fn write_views(list: Seq<FileWrite>) -> Seq<(Seq<char>, Seq<char>)> {
    list.map_values(|w: FileWrite| (w.path@, w.content@))
}

/// A file is written where its content changed.
pub open spec fn write_if_changed(
    path: Seq<char>,
    current: Option<Seq<char>>,
    updated: Seq<char>,
) -> Seq<(Seq<char>, Seq<char>)> {
    if current == Some(updated) {
        seq![]
    } else {
        seq![(path, updated)]
    }
}

/// A manifest with the name of its project.
pub open spec fn named_manifest(content: Seq<char>, name: Seq<char>) -> Seq<char> {
    manifest_with_name(content, toml_string(name))
}

/// The content of a manifest with the name of its project, where that changes it.
pub fn synchronize_instance_project_name(content: &str, project_name: &str) -> (r: Option<String>)
    requires
        !long_quote_run(project_name@),
    ensures
        opt_text(r) == (if named_manifest(content@, project_name@) == content@ {
            None
        } else {
            Some(named_manifest(content@, project_name@))
        }),
{
    let updated: String = synchronize_lifecycle_project_name_content(content, project_name);
    if same(updated.as_str(), content) {
        None
    } else {
        Some(updated)
    }
}

/// The writes that bring the manifest in step with the variables.
pub open spec fn manifest_writes(
    root: Seq<char>,
    lifecycle: Option<Seq<char>>,
    env: Seq<EnvVariableView>,
    separator: char,
) -> Seq<(Seq<char>, Seq<char>)> {
    match lifecycle {
        Some(content) => write_if_changed(
            join_path(separator, root, ".agentseek/lifecycle.toml"@),
            Some(content),
            commands_in_step(manifest_in_step(content, env), env),
        ),
        None => seq![],
    }
}

/// The writes that bring the variables of the frontend in step with those of the instance.
pub open spec fn frontend_writes(
    root: Seq<char>,
    example: Option<Seq<char>>,
    current: Option<Seq<char>>,
    env: Seq<EnvVariableView>,
    separator: char,
) -> Seq<(Seq<char>, Seq<char>)> {
    match example {
        Some(content) => {
            let existing = match current {
                Some(c) => env_entries(c),
                None => seq![],
            };
            write_if_changed(
                join_path(separator, root, "frontend/.env"@),
                current,
                env_file(frontend_variables(env_entries(content), existing, env)),
            )
        },
        None => seq![],
    }
}

/// The writes that bring the compose file in step with the variables.
pub open spec fn compose_writes(
    root: Seq<char>,
    compose: Option<Seq<char>>,
    env: Seq<EnvVariableView>,
    separator: char,
) -> Seq<(Seq<char>, Seq<char>)> {
    match compose {
        Some(content) => write_if_changed(
            join_path(separator, root, "docker-compose.yml"@),
            Some(content),
            compose_in_step(content, env),
        ),
        None => seq![],
    }
}

/// The writes that bring the files of an instance in step with its variables.
pub open spec fn port_writes(
    root: Seq<char>,
    files: ProjectFilesView,
    env: Seq<EnvVariableView>,
    separator: char,
) -> Seq<(Seq<char>, Seq<char>)> {
    manifest_writes(root, files.lifecycle, env, separator) + frontend_writes(
        root,
        files.frontend_example,
        files.frontend_env,
        env,
        separator,
    ) + compose_writes(root, files.compose, env, separator)
}

/// The writes that bring the files of an instance in step with its variables. A file that does not
/// exist is not made, but for that of a frontend that has an example.
pub fn synchronize_instance_port_configs(
    root: &str,
    files: &ProjectFiles,
    entries: &Vec<EnvVariable>,
    separator: char,
) -> (out: Vec<FileWrite>)
    ensures
        write_views(out@) == port_writes(root@, files@, env_views(entries@), separator),
{
    let ghost env = env_views(entries@);
    let mut out: Vec<FileWrite> = Vec::new();
    match &files.lifecycle {
        Some(content) => {
            let step: String = synchronize_lifecycle_content(content.as_str(), entries);
            let updated: String = sync_process_command_ports(step.as_str(), entries);
            if !same(updated.as_str(), content.as_str()) {
                out.push(
                    FileWrite {
                        path: path_below(separator, root, ".agentseek/lifecycle.toml"),
                        content: updated,
                    },
                );
            }
        },
        None => {},
    }
    proof {
        assert(write_views(out@) =~= manifest_writes(root@, files@.lifecycle, env, separator));
    }
    let ghost first = write_views(out@);
    match &files.frontend_example {
        Some(content) => {
            let example: Vec<EnvVariable> = parse_env(content.as_str());
            let existing: Vec<EnvVariable> = match &files.frontend_env {
                Some(current) => parse_env(current.as_str()),
                None => Vec::new(),
            };
            proof {
                if files.frontend_env is None {
                    assert(env_views(existing@) =~= Seq::<EnvVariableView>::empty());
                }
            }
            let frontend: Vec<EnvVariable> = frontend_entries(&example, &existing, entries);
            let rendered: String = render_env(&frontend);
            let unchanged: bool = match &files.frontend_env {
                Some(current) => same(current.as_str(), rendered.as_str()),
                None => false,
            };
            if !unchanged {
                out.push(
                    FileWrite {
                        path: path_below(separator, root, "frontend/.env"),
                        content: rendered,
                    },
                );
            }
        },
        None => {},
    }
    let ghost second = frontend_writes(
        root@,
        files@.frontend_example,
        files@.frontend_env,
        env,
        separator,
    );
    proof {
        assert(write_views(out@) =~= first + second);
    }
    match &files.compose {
        Some(content) => {
            let updated: String = sync_docker_compose_port_mappings(content.as_str(), entries);
            if !same(updated.as_str(), content.as_str()) {
                out.push(
                    FileWrite {
                        path: path_below(separator, root, "docker-compose.yml"),
                        content: updated,
                    },
                );
            }
        },
        None => {},
    }
    proof {
        assert(write_views(out@) =~= first + second + compose_writes(
            root@,
            files@.compose,
            env,
            separator,
        ));
    }
    out
}

/// The writes that give the manifest of an instance its name and bring its files in step with its
/// variables. Each file is written once.
pub open spec fn config_writes(
    root: Seq<char>,
    name: Seq<char>,
    files: ProjectFilesView,
    env: Seq<EnvVariableView>,
    separator: char,
) -> Seq<(Seq<char>, Seq<char>)> {
    match files.lifecycle {
        None => port_writes(root, files, env, separator),
        Some(content) => {
            let named = named_manifest(content, name);
            let step = commands_in_step(manifest_in_step(named, env), env);
            (if named == content && step == named {
                seq![]
            } else {
                seq![(join_path(separator, root, ".agentseek/lifecycle.toml"@), step)]
            }) + frontend_writes(root, files.frontend_example, files.frontend_env, env, separator)
                + compose_writes(root, files.compose, env, separator)
        },
    }
}

/// The writes that give the manifest of an instance its name and bring its files in step with its
/// variables.
pub fn synchronize_instance_configs(
    root: &str,
    name: &str,
    files: &ProjectFiles,
    entries: &Vec<EnvVariable>,
    separator: char,
) -> (out: Vec<FileWrite>)
    requires
        files.lifecycle is Some ==> !long_quote_run(name@),
    ensures
        write_views(out@) == config_writes(root@, name@, files@, env_views(entries@), separator),
{
    let ghost env = env_views(entries@);
    let renamed: Option<String> = match &files.lifecycle {
        Some(content) => synchronize_instance_project_name(content.as_str(), name),
        None => None,
    };
    match renamed {
        None => {
            proof {
                if files.lifecycle is Some {
                    let content = files@.lifecycle->0;
                    assert(manifest_writes(root@, files@.lifecycle, env, separator) + frontend_writes(
                        root@,
                        files@.frontend_example,
                        files@.frontend_env,
                        env,
                        separator,
                    ) + compose_writes(root@, files@.compose, env, separator) =~= config_writes(
                        root@,
                        name@,
                        files@,
                        env,
                        separator,
                    ));
                }
            }
            synchronize_instance_port_configs(root, files, entries, separator)
        },
        Some(named) => {
            let step: String = synchronize_lifecycle_content(named.as_str(), entries);
            let updated: String = sync_process_command_ports(step.as_str(), entries);
            let others: ProjectFiles = ProjectFiles {
                lifecycle: None,
                frontend_example: copy_opt(&files.frontend_example),
                frontend_env: copy_opt(&files.frontend_env),
                compose: copy_opt(&files.compose),
            };
            let rest: Vec<FileWrite> = synchronize_instance_port_configs(
                root,
                &others,
                entries,
                separator,
            );
            let mut out: Vec<FileWrite> = Vec::new();
            out.push(
                FileWrite {
                    path: path_below(separator, root, ".agentseek/lifecycle.toml"),
                    content: updated,
                },
            );
            let ghost first = write_views(out@);
            let ghost all = write_views(rest@);
            let mut i: usize = 0;
            proof {
                assert(write_views(out@) =~= first + all.take(0));
            }
            while i < rest.len()
                invariant
                    i <= rest@.len(),
                    all == write_views(rest@),
                    write_views(out@) == first + all.take(i as int),
                decreases rest@.len() - i,
            {
                let ghost before = write_views(out@);
                out.push(
                    FileWrite { path: rest[i].path.clone(), content: rest[i].content.clone() },
                );
                proof {
                    assert(write_views(out@) =~= before.push(all[i as int]));
                    assert(write_views(out@) =~= first + all.take(i + 1));
                }
                i += 1;
            }
            proof {
                assert(all.take(i as int) =~= all);
                assert(first + all =~= config_writes(root@, name@, files@, env, separator));
            }
            out
        },
    }
}

/// The paths of files that were written, one below the other.
pub open spec fn path_lines(paths: Seq<Seq<char>>) -> Seq<char> {
    join(paths.map_values(|p: Seq<char>| "  "@ + p), "\n"@)
}

/// The paths of files that were written, one below the other.
pub fn written_paths(writes: &Vec<FileWrite>) -> (out: String)
    ensures
        out@ == path_lines(
            write_views(writes@).map_values(|w: (Seq<char>, Seq<char>)| w.0),
        ),
{
    let ghost paths = write_views(writes@).map_values(|w: (Seq<char>, Seq<char>)| w.0);
    let mut list: Vec<String> = Vec::new();
    let mut i: usize = 0;
    while i < writes.len()
        invariant
            i <= writes@.len(),
            paths == write_views(writes@).map_values(|w: (Seq<char>, Seq<char>)| w.0),
            list@.len() == i,
            forall|k: int| 0 <= k < i ==> (#[trigger] list@[k])@ == "  "@ + paths[k],
        decreases writes@.len() - i,
    {
        proof {
            assert(paths[i as int] == writes@[i as int].path@);
        }
        list.push(owned("  ").concat(writes[i].path.as_str()));
        i += 1;
    }
    proof {
        assert(texts(list@) =~= paths.map_values(|p: Seq<char>| "  "@ + p));
    }
    join_texts(&list, "\n")
}

/// What the log says of ports that were changed.
pub open spec fn port_change_message(
    opening: Seq<char>,
    changes: Seq<PortChangeView>,
    env_path: Seq<char>,
    paths: Seq<Seq<char>>,
) -> Seq<char> {
    opening + "\nPort changes:\n"@ + join(
        changes.map_values(|c: PortChangeView| change_line(c)),
        "\n"@,
    ) + "\nSynced files:\n  "@ + env_path + "\n"@ + path_lines(paths)
}

/// What the log says of ports that were changed.
pub fn describe_port_changes(
    opening: &str,
    changes: &Vec<PortChange>,
    env_path: &str,
    writes: &Vec<FileWrite>,
) -> (out: String)
    ensures
        out@ == port_change_message(
            opening@,
            change_views(changes@),
            env_path@,
            write_views(writes@).map_values(|w: (Seq<char>, Seq<char>)| w.0),
        ),
{
    owned(opening).concat("\nPort changes:\n").concat(
        port_change_details(changes).as_str(),
    ).concat("\nSynced files:\n  ").concat(env_path).concat("\n").concat(
        written_paths(writes).as_str(),
    )
}

// ---------------------------------------------------------------------------------------------
// The variables of a new instance
// ---------------------------------------------------------------------------------------------
/// A manifest: its content and its services.
#[derive(Debug)]
pub struct ReadManifest {
    pub content: String,
    pub services: Vec<(String, String)>,
}

/// What is decided of a new instance.
#[derive(Debug)]
pub struct PreparedEnvironment {
    pub entries: Vec<EnvVariable>,
    /// The manifest, where it is to be written.
    pub manifest: Option<String>,
    pub changes: Vec<PortChange>,
}

/// The ports of a new instance: those that its template described and, where it has a manifest,
/// those of its services.
pub open spec fn all_new_ports(
    manifest: Option<ReadManifest>,
    ports: Seq<(Seq<char>, u16)>,
    changes: Seq<PortChangeView>,
    reserved: Seq<u16>,
    free: Seq<u16>,
    spare: Seq<u16>,
) -> Option<NewPorts> {
    match manifest {
        None => Some(new_ports_start(seq![], ports, changes, reserved, spare)),
        Some(m) => new_ports_run(
            new_ports_start(m.content@, ports, changes, reserved, spare),
            service_views(m.services@),
            free,
        ),
    }
}

/// The variables of a new instance: those of its example with the chosen ports and the choice on
/// tracing, and with what the vault holds.
pub open spec fn prepared_variables(
    example: Seq<EnvVariableView>,
    run: NewPorts,
    vault: Seq<EnvVariableView>,
) -> Seq<EnvVariableView> {
    with_tracing(with_chosen_ports(example, run.ports, run.changes)).map_values(
        |e: EnvVariableView| merged_entry(e, vault),
    )
}

/// Decides the ports and the variables of a new instance.
pub fn prepare_environment(
    example: &Vec<EnvVariable>,
    manifest: &Option<ReadManifest>,
    described: Vec<(String, u16)>,
    described_changes: Vec<PortChange>,
    vault: &Vec<EnvVariable>,
    reserved: &Vec<u16>,
    free: &Vec<u16>,
    spare: &Vec<u16>,
) -> (r: Result<PreparedEnvironment, NoSparePort>)
    ensures
        match (
            r,
            all_new_ports(
                *manifest,
                port_views(described@),
                change_views(described_changes@),
                reserved@,
                free@,
                spare@,
            ),
        ) {
            (Ok(out), Some(run)) => {
                &&& env_views(out.entries@) == prepared_variables(
                    env_views(example@),
                    run,
                    env_views(vault@),
                )
                &&& change_views(out.changes@) == run.changes
                &&& opt_text(out.manifest) == (match *manifest {
                    Some(m) => if run.content == m.content@ {
                        None
                    } else {
                        Some(run.content)
                    },
                    None => None,
                })
            },
            (Err(_), None) => true,
            _ => false,
        },
{
    let mut ports: Vec<(String, u16)> = described;
    let mut changes: Vec<PortChange> = described_changes;
    let mut written: Option<String> = None;
    match manifest {
        Some(m) => {
            match assign_service_ports(
                m.content.as_str(),
                &m.services,
                &mut ports,
                &mut changes,
                reserved,
                free,
                spare,
            ) {
                Ok(updated) => {
                    if !same(updated.as_str(), m.content.as_str()) {
                        written = Some(updated);
                    }
                },
                Err(fault) => {
                    return Err(fault);
                },
            }
        },
        None => {},
    }
    let mut entries: Vec<EnvVariable> = crate::env::copy_entries(example);
    apply_chosen_ports(&mut entries, &ports, &changes);
    ensure_tracing_choice(&mut entries);
    let merged: Vec<EnvVariable> = merge_env_entries(&entries, vault);
    Ok(PreparedEnvironment { entries: merged, manifest: written, changes })
}

// ---------------------------------------------------------------------------------------------
// Saving the variables of an instance
// ---------------------------------------------------------------------------------------------
/// The ports of an instance and its variables as they are saved, with the changes of ports and the
/// manifest where it is to be written.
#[verifier::ext_equal]
pub struct SavedView {
    pub entries: Seq<EnvVariableView>,
    pub changes: Seq<PortChangeView>,
    pub manifest: Option<Seq<char>>,
}

/// What saving the variables of an instance makes of them. The ports of a deployed instance stay;
/// those of another are settled with its manifest, or among its variables where it has none.
pub open spec fn saved_environment(
    entries: Seq<EnvVariableView>,
    deployed: bool,
    manifest: Option<ReadManifest>,
    reserved: Seq<u16>,
    free: Seq<u16>,
    spare: Seq<u16>,
) -> Option<SavedView> {
    if deployed {
        Some(SavedView { entries: with_tracing(entries), changes: seq![], manifest: None })
    } else {
        match manifest {
            None => match resolved_conflicts(entries, free, spare) {
                Some(resolved) => Some(
                    SavedView {
                        entries: with_tracing(resolved.0),
                        changes: resolved.1,
                        manifest: None,
                    },
                ),
                None => None,
            },
            Some(m) => match service_run(service_views(m.services@), entries, reserved, free, spare) {
                Some(run) => Some(
                    SavedView {
                        entries: with_tracing(
                            with_service_variables(entries, run.ports).map_values(
                                |e: EnvVariableView| with_service_urls(e, run.ports),
                            ),
                        ),
                        changes: run.changes,
                        manifest: Some(
                            manifest_with_ports(m.content@, service_views(m.services@), run.ports),
                        ),
                    },
                ),
                None => None,
            },
        }
    }
}

/// What is decided when the variables of an instance are saved.
#[derive(Debug)]
pub struct SavedEnvironment {
    pub entries: Vec<EnvVariable>,
    pub changes: Vec<PortChange>,
    pub manifest: Option<String>,
}

/// Decides what is saved of the variables of an instance.
pub fn save_environment(
    entries: Vec<EnvVariable>,
    deployment_completed: bool,
    manifest: &Option<ReadManifest>,
    reserved: &Vec<u16>,
    free: &Vec<u16>,
    spare: &Vec<u16>,
) -> (r: Result<SavedEnvironment, NoSparePort>)
    ensures
        match (
            r,
            saved_environment(
                env_views(entries@),
                deployment_completed,
                *manifest,
                reserved@,
                free@,
                spare@,
            ),
        ) {
            (Ok(out), Some(saved)) => env_views(out.entries@) == saved.entries && change_views(
                out.changes@,
            ) == saved.changes && opt_text(out.manifest) == saved.manifest,
            (Err(_), None) => true,
            _ => false,
        },
{
    let mut entries: Vec<EnvVariable> = entries;
    let mut changes: Vec<PortChange> = Vec::new();
    let mut written: Option<String> = None;
    proof {
        assert(change_views(changes@) =~= Seq::<PortChangeView>::empty());
    }
    match port_settling(deployment_completed, manifest.is_some()) {
        PortSettling::Keep => {},
        PortSettling::AmongVariables => {
            match resolve_port_conflicts(&mut entries, free, spare) {
                Ok(found) => {
                    changes = found;
                },
                Err(fault) => {
                    return Err(fault);
                },
            }
        },
        PortSettling::FromManifest => {
            match manifest {
                Some(m) => {
                    match resolve_lifecycle_ports(
                        m.content.as_str(),
                        &m.services,
                        &entries,
                        reserved,
                        free,
                        spare,
                    ) {
                        Ok(found) => {
                            let LifecyclePorts { content, changes: moved, ports } = found;
                            apply_service_ports(&mut entries, &ports);
                            changes = moved;
                            written = Some(content);
                        },
                        Err(fault) => {
                            return Err(fault);
                        },
                    }
                },
                None => {},
            }
        },
    }
    ensure_tracing_choice(&mut entries);
    Ok(SavedEnvironment { entries, changes, manifest: written })
}

// ---------------------------------------------------------------------------------------------
// Before a deployment
// ---------------------------------------------------------------------------------------------
/// A variable is marked as modified.
pub open spec fn any_modified(entries: Seq<EnvVariableView>) -> bool {
    exists|k: int| 0 <= k < entries.len() && (#[trigger] entries[k]).modified
}

/// The variables of an instance before it is deployed: without conflicts between their ports, and
/// with URLs in step with the manifest.
pub open spec fn rechecked(
    entries: Seq<EnvVariableView>,
    services: Seq<(Seq<char>, Seq<char>)>,
    free: Seq<u16>,
    spare: Seq<u16>,
) -> Option<(Seq<EnvVariableView>, Seq<PortChangeView>)> {
    match resolved_conflicts(entries, free, spare) {
        Some(resolved) => Some(
            (
                resolved.0.map_values(
                    |e: EnvVariableView| with_named_port(e, service_ports(services)),
                ),
                resolved.1,
            ),
        ),
        None => None,
    }
}

/// What is decided of the variables of an instance before it is deployed.
#[derive(Debug)]
pub struct RecheckedEnvironment {
    pub entries: Vec<EnvVariable>,
    pub changes: Vec<PortChange>,
    /// The file of variables is to be written.
    pub write: bool,
}

/// Settles the ports of an instance once more before it is deployed.
pub fn recheck_environment(
    entries: Vec<EnvVariable>,
    services: &Vec<(String, String)>,
    free: &Vec<u16>,
    spare: &Vec<u16>,
) -> (r: Result<RecheckedEnvironment, NoSparePort>)
    ensures
        match (r, rechecked(env_views(entries@), service_views(services@), free@, spare@)) {
            (Ok(out), Some(checked)) => env_views(out.entries@) == checked.0 && change_views(
                out.changes@,
            ) == checked.1 && out.write == (checked.1.len() > 0 || any_modified(checked.0)),
            (Err(_), None) => true,
            _ => false,
        },
{
    let mut entries: Vec<EnvVariable> = entries;
    let changes: Vec<PortChange> = match resolve_port_conflicts(&mut entries, free, spare) {
        Ok(changes) => changes,
        Err(fault) => {
            return Err(fault);
        },
    };
    sync_env_urls_from_lifecycle(services, &mut entries);
    let ghost all = env_views(entries@);
    let mut modified: bool = false;
    let mut i: usize = 0;
    while i < entries.len() && !modified
        invariant
            i <= entries@.len(),
            all == env_views(entries@),
            modified ==> any_modified(all),
            !modified ==> forall|k: int| 0 <= k < i ==> !(#[trigger] all[k]).modified,
        decreases entries@.len() - i,
    {
        proof {
            assert(all[i as int] == entries@[i as int]@);
        }
        if entries[i].modified {
            modified = true;
        }
        i += 1;
    }
    let write: bool = changes.len() > 0 || modified;
    Ok(RecheckedEnvironment { entries, changes, write })
}

// ---------------------------------------------------------------------------------------------
// The name of the project in the files of a template
// ---------------------------------------------------------------------------------------------
/// The project name that a line of a description holds.
pub open spec fn described_name(line: Seq<char>) -> Option<Seq<char>> {
    if starts_with(trim(line), "project_name:"@) {
        Some(trim(trim(line).skip("project_name:"@.len() as int)))
    } else {
        None
    }
}

/// The project name of the first line that holds one.
pub open spec fn first_described_name(list: Seq<Seq<char>>, i: int) -> Option<Seq<char>>
    decreases list.len() - i,
{
    if i < 0 || i >= list.len() {
        None
    } else if described_name(list[i]) is Some {
        described_name(list[i])
    } else {
        first_described_name(list, i + 1)
    }
}

/// The project name that the description of a template gives.
pub fn described_project_name(output: &str) -> (r: Option<String>)
    ensures
        opt_text(r) == first_described_name(lines(output@), 0),
{
    let list: Vec<String> = text_lines(output);
    let ghost all = lines(output@);
    let mut i: usize = 0;
    while i < list.len()
        invariant
            i <= list@.len(),
            texts(list@) == all,
            all == lines(output@),
            first_described_name(all, 0) == first_described_name(all, i as int),
        decreases list@.len() - i,
    {
        proof {
            assert(all[i as int] == list@[i as int]@);
        }
        let line: String = trimmed(list[i].as_str());
        match without_prefix(line.as_str(), "project_name:") {
            Some(name) => {
                return Some(trimmed(name.as_str()));
            },
            None => {},
        }
        i += 1;
    }
    None
}

/// A text before each character of another and behind the last.
pub open spec fn interleaved(s: Seq<char>, between: Seq<char>) -> Seq<char>
    decreases s.len(),
{
    if s.len() == 0 {
        between
    } else {
        interleaved(s.drop_last(), between).push(s.last()) + between
    }
}

/// A text with each occurrence of a name replaced. The empty name occurs between all characters.
pub open spec fn renamed(content: Seq<char>, name: Seq<char>, new_name: Seq<char>) -> Seq<char> {
    if name.len() == 0 {
        interleaved(content, new_name)
    } else {
        replace_all(content, name, new_name)
    }
}

/// The content of a file with the name of its project in place of the one of its template; none
/// where the file does not hold that.
pub fn rename_project(content: &str, name: &str, new_name: &str) -> (r: Option<String>)
    ensures
        opt_text(r) == (if contains(content@, name@) {
            Some(renamed(content@, name@, new_name@))
        } else {
            None
        }),
{
    if !text_has(content, name) {
        return None;
    }
    if !name.is_empty() {
        return Some(replaced(content, name, new_name));
    }
    let chars: Vec<char> = chars_of(content);
    let mut out: String = owned(new_name);
    let mut i: usize = 0;
    proof {
        assert(content@.take(0) =~= Seq::<char>::empty());
    }
    while i < chars.len()
        invariant
            i <= chars@.len(),
            chars@ == content@,
            out@ == interleaved(content@.take(i as int), new_name@),
        decreases chars@.len() - i,
    {
        proof {
            assert(content@.take(i + 1).drop_last() =~= content@.take(i as int));
        }
        out.push(chars[i]);
        out = out.concat(new_name);
        i += 1;
    }
    proof {
        assert(content@.take(i as int) =~= content@);
    }
    Some(out)
}

/// A directory whose files keep the name of the template: one of the version control.
pub fn is_left_alone(directory: &str) -> (r: bool)
    ensures
        r == contains(directory@, "/.git"@),
{
    text_has(directory, "/.git")
}

// ---------------------------------------------------------------------------------------------
// Files of variables that are imported and exported
// ---------------------------------------------------------------------------------------------
/// A file of variables.
pub open spec fn is_env_file(is_file: bool, name: Option<Seq<char>>) -> bool {
    is_file && name is Some && starts_with(name->0, ".env"@)
}

/// Checks a file that is to be imported. `name` is its name, where it is a text.
pub fn check_import(is_file: bool, name: Option<String>) -> (r: Result<(), String>)
    ensures
        match r {
            Ok(_) => is_env_file(is_file, opt_text(name)),
            Err(message) => !is_env_file(is_file, opt_text(name)) && message@
                == "Please select a valid .env file path"@,
        },
{
    if is_file {
        match &name {
            Some(n) => {
                if is_env_file_name(n.as_str()) {
                    return Ok(());
                }
            },
            None => {},
        }
    }
    Err(owned("Please select a valid .env file path"))
}

/// What is known of an export.
#[derive(Debug)]
pub struct ExportFacts {
    pub source_is_file: bool,
    pub source_name: Option<String>,
    pub output_is_absolute: bool,
    pub output_name: Option<String>,
    pub output_directory_exists: bool,
}

/// What stands against an export.
pub open spec fn export_fault(facts: ExportFacts) -> Option<Seq<char>> {
    if !is_env_file(facts.source_is_file, opt_text(facts.source_name)) {
        Some("Please select a valid source .env file"@)
    } else if !facts.output_is_absolute || facts.output_name is None || trim(
        opt_text(facts.output_name)->0,
    ).len() == 0 {
        Some("Target file must be an absolute path with filename"@)
    } else if !facts.output_directory_exists {
        Some("Target file directory does not exist"@)
    } else {
        None
    }
}

/// Checks an export.
pub fn check_export(facts: &ExportFacts) -> (r: Result<(), String>)
    ensures
        match r {
            Ok(_) => export_fault(*facts) is None,
            Err(message) => export_fault(*facts) == Some(message@),
        },
{
    let named: bool = match &facts.source_name {
        Some(name) => is_env_file_name(name.as_str()),
        None => false,
    };
    if !facts.source_is_file || !named {
        return Err(owned("Please select a valid source .env file"));
    }
    let output_named: bool = match &facts.output_name {
        Some(name) => {
            let t: String = trimmed(name.as_str());
            !t.as_str().is_empty()
        },
        None => false,
    };
    if !facts.output_is_absolute || !output_named {
        return Err(owned("Target file must be an absolute path with filename"));
    }
    if !facts.output_directory_exists {
        return Err(owned("Target file directory does not exist"));
    }
    Ok(())
}

/// A file that is there is overwritten only where that was asked for.
pub fn check_overwrite(path: &str, present: bool, overwrite: bool) -> (r: Result<(), String>)
    ensures
        match r {
            Ok(_) => !present || overwrite,
            Err(message) => present && !overwrite && message@ == "ENV_FILE_EXISTS:"@ + path@,
        },
{
    if present && !overwrite {
        return Err(owned("ENV_FILE_EXISTS:").concat(path));
    }
    Ok(())
}

/// The names of files of variables among others, but for the example.
pub open spec fn env_names(names: Seq<Seq<char>>) -> Seq<Seq<char>> {
    names.filter(|n: Seq<char>| starts_with(n, ".env"@) && n != ".env.example"@)
}

/// The examples among names.
pub open spec fn example_names(names: Seq<Seq<char>>) -> Seq<Seq<char>> {
    names.filter(|n: Seq<char>| n == ".env.example"@)
}

/// The files of variables of a directory: the example first, then the others by their names.
pub open spec fn env_files_of(
    directory: Seq<char>,
    names: Seq<Seq<char>>,
    separator: char,
) -> Seq<Seq<char>> {
    (example_names(names) + sorted_texts(env_names(names))).map_values(
        |n: Seq<char>| join_path(separator, directory, n),
    )
}

/// The files of variables of a directory. `names` holds the names of its files.
pub fn list_env_files(directory: &str, names: &Vec<String>, separator: char) -> (out: Vec<String>)
    ensures
        texts(out@) == env_files_of(directory@, texts(names@), separator),
{
    let ghost all = texts(names@);
    let mut examples: Vec<String> = Vec::new();
    let mut others: Vec<String> = Vec::new();
    let mut i: usize = 0;
    proof {
        reveal(Seq::filter);
        reveal_strlit(".env");
        reveal_strlit(".env.example");
        assert(starts_with(".env.example"@, ".env"@)) by {
            assert(".env.example"@.subrange(0, 4) =~= ".env"@);
        }
        assert(all.take(0) =~= Seq::<Seq<char>>::empty());
        assert(texts(examples@) =~= example_names(all.take(0)));
        assert(texts(others@) =~= env_names(all.take(0)));
    }
    while i < names.len()
        invariant
            i <= names@.len(),
            all == texts(names@),
            starts_with(".env.example"@, ".env"@),
            texts(examples@) == example_names(all.take(i as int)),
            texts(others@) == env_names(all.take(i as int)),
        decreases names@.len() - i,
    {
        let ghost before_examples = texts(examples@);
        let ghost before_others = texts(others@);
        proof {
            reveal(Seq::filter);
            assert(all[i as int] == names@[i as int]@);
            assert(all.take(i + 1).drop_last() =~= all.take(i as int));
            assert(all.take(i + 1).last() == all[i as int]);
        }
        if is_env_file_name(names[i].as_str()) {
            if same(names[i].as_str(), ".env.example") {
                examples.push(names[i].clone());
                proof {
                    assert(texts(examples@) =~= before_examples.push(all[i as int]));
                }
            } else {
                others.push(names[i].clone());
                proof {
                    assert(texts(others@) =~= before_others.push(all[i as int]));
                }
            }
        }
        i += 1;
    }
    proof {
        assert(all.take(i as int) =~= all);
    }
    let sorted: Vec<String> = sort_texts(&others);
    let ghost order = example_names(all) + sorted_texts(env_names(all));
    let mut out: Vec<String> = Vec::new();
    let mut k: usize = 0;
    while k < examples.len()
        invariant
            k <= examples@.len(),
            texts(examples@) == example_names(all),
            order == example_names(all) + sorted_texts(env_names(all)),
            out@.len() == k,
            forall|j: int|
                0 <= j < k ==> (#[trigger] out@[j])@ == join_path(separator, directory@, order[j]),
        decreases examples@.len() - k,
    {
        proof {
            assert(order[k as int] == texts(examples@)[k as int]);
        }
        out.push(path_below(separator, directory, examples[k].as_str()));
        k += 1;
    }
    let mut m: usize = 0;
    while m < sorted.len()
        invariant
            m <= sorted@.len(),
            examples@.len() == example_names(all).len(),
            texts(sorted@) == sorted_texts(env_names(all)),
            order == example_names(all) + sorted_texts(env_names(all)),
            out@.len() == examples@.len() + m,
            forall|j: int|
                0 <= j < out@.len() ==> (#[trigger] out@[j])@ == join_path(
                    separator,
                    directory@,
                    order[j],
                ),
        decreases sorted@.len() - m,
    {
        proof {
            assert(order[examples@.len() + m] == texts(sorted@)[m as int]);
        }
        out.push(path_below(separator, directory, sorted[m].as_str()));
        m += 1;
    }
    proof {
        assert(texts(examples@).len() == examples@.len());
        assert(texts(sorted@).len() == sorted@.len());
        assert(texts(out@) =~= env_files_of(directory@, all, separator));
    }
    out
}

} // verus!
