//! What holds of the scripts that install tools, of the changes to files of templates, and of the
//! places in which programs are looked for.
use vstd::prelude::*;

use crate::install::{
    nvm_line, posix_lines, powershell_word, shell_word, step_for, terminals, windows_architecture,
    windows_lines, windows_node_lines, windows_uv_address, windows_uv_lines, InstallStep, POSIX_CLI,
    WINDOWS_CLI, WINDOWS_END, WINDOWS_PRELUDE,
};
use crate::number::{decimal, parse_unsigned};
use crate::patches::{
    agent_async_patch, apt_mirror_patch, choice_end, convert_models_patch, mirrors_patch,
    AGENT_IMPORT, APT_UPDATE, ASYNC_MARK, DEPENDENCY_SYNC, EXPORTER_COMMAND, EXPORTER_MODULE,
    INDEX_CHOICE, PACKAGE_MIRROR, REPOSITORY_MIRROR,
};
use crate::paths::join_path;
use crate::processes::{
    compose_names, docker_warning, first_present, is_entered, is_wanted, missing_parts, pids_in,
    process_line, removal_fault, still_running_message, stop_message, DockerStatus, PendingEntry,
    StoppedProcess, WorkDirFacts,
};
use crate::programs::{
    agentseek_place, newest_versions, node_bin_of, parts_of_cli, search_path, SearchFacts,
};
use crate::project_laws::{lemma_inside, lemma_inside_part, law_joined_texts_are_all_there};
use crate::replace_laws::lemma_replacement_is_there;
use crate::search::{
    at, contains, ends_with, lemma_find_from_is, lemma_first_char, starts_with, trim, trim_end_of,
    trim_start_of,
};
use crate::split::{lines, words};
use crate::text::{ascii_lower, join, opt_text, texts};
use crate::tools::{
    distribution_in_line, exit_status, fetch_fault, lines_from_last, node_command, node_major,
    nvm_address, template_line, template_scan, CliStatus, RuntimeRequirements,
};
use crate::versions::{
    agentseek_version_in_line, first_told, major_of, newest_name, tool_version_in_line, version_of,
};

verus! {

// ---------------------------------------------------------------------------------------------
// Scripts
// ---------------------------------------------------------------------------------------------
proof fn lemma_held<A>(a: Seq<A>, b: Seq<A>, x: A)
    requires
        a.contains(x) || b.contains(x),
    ensures
        (a + b).contains(x),
{
    if a.contains(x) {
        let i = choose|i: int| 0 <= i < a.len() && a[i] == x;
        assert((a + b)[i] == x);
    } else {
        let i = choose|i: int| 0 <= i < b.len() && b[i] == x;
        assert((a + b)[a.len() + i] == x);
    }
}

proof fn lemma_pushed<A>(a: Seq<A>, y: A, x: A)
    requires
        a.contains(x) || y == x,
    ensures
        a.push(y).contains(x),
{
    if a.contains(x) {
        let i = choose|i: int| 0 <= i < a.len() && a[i] == x;
        assert(a.push(y)[i] == x);
    } else {
        assert(a.push(y)[a.len() as int] == x);
    }
}

/// Each part of the script of the installation is in the whole.
proof fn lemma_posix_parts(
    r: RuntimeRequirements,
    s: CliStatus,
    task_dir: Seq<char>,
    runtime_root: Seq<char>,
    separator: char,
    x: Seq<char>,
)
    requires
        crate::install::posix_uv_lines(r, s).contains(x) || crate::install::posix_node_lines(
            r,
            s,
            runtime_root,
            separator,
        ).contains(x) || crate::install::posix_cli_lines(s).contains(x),
    ensures
        posix_lines(r, s, task_dir, runtime_root, separator).contains(x),
{
    let all = posix_lines(r, s, task_dir, runtime_root, separator);
    let uv = crate::install::posix_uv_lines(r, s);
    let node = crate::install::posix_node_lines(r, s, runtime_root, separator);
    let cli = crate::install::posix_cli_lines(s);
    let start = lines(crate::install::POSIX_START@).push(
        "STATUS_FILE="@ + shell_word(join_path(separator, task_dir, "status.json"@)),
    ).push("LOG_FILE="@ + shell_word(join_path(separator, task_dir, "install.log"@))).push(
        "TASK_DIR="@ + shell_word(task_dir),
    ) + lines(crate::install::POSIX_PRELUDE@);
    let end = lines(crate::install::POSIX_END@);
    if uv.contains(x) {
        lemma_held(start, uv, x);
    }
    if (start + uv).contains(x) || node.contains(x) {
        lemma_held(start + uv, node, x);
    }
    lemma_held(start + uv + node, cli, x);
    lemma_held(start + uv + node + cli, end, x);
    lemma_pushed(start + uv + node + cli + end, ""@, x);
    assert(all =~= (start + uv + node + cli + end).push(""@));
}

/// The script for a POSIX shell installs each tool exactly where it is needed: uv from its
/// installer, the wanted major version of Node.js, and AgentSeek. For each tool that is not needed it
/// says that it is skipped, and it goes on with the uv that is there.
pub proof fn law_script_installs_what_is_needed(
    r: RuntimeRequirements,
    s: CliStatus,
    task_dir: Seq<char>,
    runtime_root: Seq<char>,
    separator: char,
    i: int,
)
    ensures
        ({
            let script = posix_lines(r, s, task_dir, runtime_root, separator);
            &&& !s.uv_compatible ==> script.contains(
                "run_shell_installer "@ + shell_word(r.sources.uv_installer@) + " uv"@,
            )
            &&& s.uv_compatible ==> script.contains("UV_BIN="@ + shell_word(s.uv_path@))
            &&& !s.node_compatible || !s.npm_compatible ==> script.contains(
                "nvm install "@ + decimal(node_major(r)),
            ) && script.contains(
                "export NVM_DIR="@ + shell_word(join_path(separator, runtime_root, "nvm"@)),
            )
            &&& s.node_compatible && s.npm_compatible ==> script.contains(
                "echo '[2/3] Node.js / npm already meet the requirements; skipping'"@,
            )
            &&& (!s.cli_compatible || s.cli_update_available) && 0 <= i < lines(POSIX_CLI@).len()
                ==> script.contains(lines(POSIX_CLI@)[i])
            &&& s.cli_compatible && !s.cli_update_available ==> script.contains(
                "echo '[3/3] AgentSeek CLI already meets the requirement; skipping'"@,
            )
        }),
{
    let uv = crate::install::posix_uv_lines(r, s);
    let node = crate::install::posix_node_lines(r, s, runtime_root, separator);
    let cli = crate::install::posix_cli_lines(s);
    if !s.uv_compatible {
        let x = "run_shell_installer "@ + shell_word(r.sources.uv_installer@) + " uv"@;
        lemma_pushed(lines(crate::install::POSIX_UV@), x, x);
        lemma_pushed(
            lines(crate::install::POSIX_UV@).push(x),
            "UV_BIN=\"$HOME/.local/bin/uv\""@,
            x,
        );
        lemma_posix_parts(r, s, task_dir, runtime_root, separator, x);
    } else {
        let x = "UV_BIN="@ + shell_word(s.uv_path@);
        assert(uv[0] == x);
        lemma_posix_parts(r, s, task_dir, runtime_root, separator, x);
    }
    if !s.node_compatible || !s.npm_compatible {
        let dir = "export NVM_DIR="@ + shell_word(join_path(separator, runtime_root, "nvm"@));
        let a = lines(crate::install::POSIX_NODE@).push(dir);
        let b = lines(crate::install::POSIX_NVM_DIR@);
        let nvm = crate::install::nvm_line(r);
        let x = "nvm install "@ + decimal(node_major(r));
        let c = lines(crate::install::POSIX_NVM@).push(x);
        let d = lines(crate::install::POSIX_NODE_CHECK@);
        lemma_pushed(lines(crate::install::POSIX_NODE@), dir, dir);
        lemma_held(a, b, dir);
        lemma_pushed(a + b, nvm, dir);
        lemma_held((a + b).push(nvm), c, dir);
        lemma_held((a + b).push(nvm) + c, d, dir);
        lemma_posix_parts(r, s, task_dir, runtime_root, separator, dir);
        lemma_pushed(lines(crate::install::POSIX_NVM@), x, x);
        lemma_held((a + b).push(nvm), c, x);
        lemma_held((a + b).push(nvm) + c, d, x);
        lemma_posix_parts(r, s, task_dir, runtime_root, separator, x);
    } else {
        let x = "echo '[2/3] Node.js / npm already meet the requirements; skipping'"@;
        assert(node[0] == x);
        lemma_posix_parts(r, s, task_dir, runtime_root, separator, x);
    }
    if !s.cli_compatible || s.cli_update_available {
        if 0 <= i < lines(POSIX_CLI@).len() {
            lemma_posix_parts(r, s, task_dir, runtime_root, separator, lines(POSIX_CLI@)[i]);
        }
    } else {
        let x = "echo '[3/3] AgentSeek CLI already meets the requirement; skipping'"@;
        assert(cli[0] == x);
        lemma_posix_parts(r, s, task_dir, runtime_root, separator, x);
    }
}

/// The script for PowerShell has the parts that install Node.js and AgentSeek exactly where they are
/// needed, and the part on uv either installs it or names the one that is there.
pub proof fn law_windows_script_installs_what_is_needed(
    r: RuntimeRequirements,
    s: CliStatus,
    task_dir: Seq<char>,
    runtime_root: Seq<char>,
    arm: bool,
    separator: char,
    i: int,
)
    ensures
        ({
            let script = windows_lines(r, s, task_dir, runtime_root, arm, separator);
            let uv = windows_uv_lines(r, s);
            let node = windows_node_lines(r, s, runtime_root, arm, separator);
            let fixed = 4 + lines(WINDOWS_PRELUDE@).len() + uv.len() + node.len() + lines(
                WINDOWS_END@,
            ).len() + 1;
            &&& s.cli_compatible && !s.cli_update_available ==> script.len() == fixed
            &&& !s.cli_compatible || s.cli_update_available ==> script.len() == fixed + lines(
                WINDOWS_CLI@,
            ).len()
            &&& s.node_compatible && s.npm_compatible ==> node.len() == 0
            &&& !s.node_compatible || !s.npm_compatible ==> node.contains(
                "  Invoke-DownloadWithRetry -Uri "@ + powershell_word(
                    trim_end_of(r.sources.node_distribution@, "/"@) + "/v"@
                        + r.versions.node.managed@ + "/"@ + ("node-v"@ + r.versions.node.managed@
                        + "-"@ + windows_architecture(arm) + ".zip"@),
                ) + " -OutFile $Archive -Label 'Node.js ZIP'"@,
            )
            &&& s.uv_compatible ==> uv == seq!["  $UvBin = "@ + powershell_word(s.uv_path@)]
            &&& !s.uv_compatible ==> uv.contains(
                "  Invoke-DownloadWithRetry -Uri "@ + powershell_word(windows_uv_address(r))
                    + " -OutFile $UvInstaller -Label 'official uv installer'"@,
            )
            &&& 0 <= i < uv.len() ==> script.contains(uv[i])
            &&& 0 <= i < node.len() ==> script.contains(node[i])
        }),
{
    let script = windows_lines(r, s, task_dir, runtime_root, arm, separator);
    let uv = windows_uv_lines(r, s);
    let node = windows_node_lines(r, s, runtime_root, arm, separator);
    let before = 4 + lines(WINDOWS_PRELUDE@).len();
    if !s.node_compatible || !s.npm_compatible {
        let k = 2 + lines(crate::install::WINDOWS_NODE_FILES@).len();
        assert(node[k as int] == "  Invoke-DownloadWithRetry -Uri "@ + powershell_word(
            crate::install::node_directory(r) + (crate::install::node_folder(r, arm) + ".zip"@),
        ) + " -OutFile $Archive -Label 'Node.js ZIP'"@);
    }
    if !s.uv_compatible {
        assert(uv[3] == "  Invoke-DownloadWithRetry -Uri "@ + powershell_word(windows_uv_address(r))
            + " -OutFile $UvInstaller -Label 'official uv installer'"@);
    }
    if 0 <= i < uv.len() {
        assert(script[before + i] == uv[i]);
    }
    if 0 <= i < node.len() {
        assert(script[before + uv.len() + i] == node[i]);
    }
}

/// On Windows uv comes from the installer that is named for Windows; without one, from the general
/// one, as a script for PowerShell where that is a shell script.
pub proof fn law_installer_of_windows(r: RuntimeRequirements, base: Seq<char>)
    ensures
        r.sources.uv_installer_windows matches Some(address) ==> windows_uv_address(r) == address@,
        r.sources.uv_installer_windows is None && r.sources.uv_installer@ == base + ".sh"@
            ==> windows_uv_address(r) == base + ".ps1"@,
        r.sources.uv_installer_windows is None && !ends_with(r.sources.uv_installer@, ".sh"@)
            ==> windows_uv_address(r) == r.sources.uv_installer@,
{
    let all = base + ".sh"@;
    assert(all.take(all.len() - ".sh"@.len()) =~= base);
    assert(all.skip(all.len() - ".sh"@.len()) =~= ".sh"@);
}

/// The tools are looked at again exactly behind an installation that succeeded, and a failure is told
/// exactly where one was. Each terminal runs the script.
pub proof fn law_end_of_an_installation(state: Seq<char>, script: Seq<char>, i: int)
    ensures
        step_for(state) == InstallStep::CheckTools <==> state == "success"@,
        step_for(state) == InstallStep::ReportFailure <==> state == "failed"@,
        0 <= i < 3 ==> terminals(script)[i].1.last() == script && terminals(script)[i].1[1]
            == "bash"@,
{
    reveal_strlit("success");
    reveal_strlit("failed");
    assert("success"@.len() == 7 && "failed"@.len() == 6);
}

// ---------------------------------------------------------------------------------------------
// Changes to files of templates
// ---------------------------------------------------------------------------------------------
/// `pat` stands in a text right behind `before`, and not earlier.
pub open spec fn is_first_behind(content: Seq<char>, before: Seq<char>, pat: Seq<char>) -> bool {
    &&& at(content, pat, before.len() as int)
    &&& content.take(before.len() as int) == before
    &&& forall|j: int| 0 <= j < before.len() ==> !#[trigger] at(content, pat, j)
}

/// A script that converts models calls the exporter by its command in the first place in which it
/// called the module, and is the same elsewhere. An agent gets its shim right before its import and
/// is the same elsewhere. A build file falls back on the mirror of packages in place of its first
/// update, and is the same elsewhere.
pub proof fn law_files_change_in_one_place(content: Seq<char>, before: Seq<char>)
    ensures
        is_first_behind(content, before, EXPORTER_MODULE@) ==> convert_models_patch(content)
            == Some(
            before + EXPORTER_COMMAND@ + content.skip(
                (before.len() + EXPORTER_MODULE@.len()) as int,
            ),
        ),
        !contains(content, EXPORTER_MODULE@) ==> convert_models_patch(content) is None,
        is_first_behind(content, before, AGENT_IMPORT@) && !contains(content, ASYNC_MARK@)
            ==> (agent_async_patch(content) matches Some(patched) && starts_with(patched, before)
            && ends_with(patched, content.skip(before.len() as int)) && contains(
            patched,
            ASYNC_MARK@,
        )),
        contains(content, ASYNC_MARK@) || !contains(content, AGENT_IMPORT@) ==> agent_async_patch(
            content,
        ) is None,
        is_first_behind(content, before, APT_UPDATE@) && !contains(content, PACKAGE_MIRROR@)
            ==> (apt_mirror_patch(content) matches Some(patched) && starts_with(patched, before)
            && ends_with(patched, content.skip((before.len() + APT_UPDATE@.len()) as int))
            && contains(patched, PACKAGE_MIRROR@)),
        contains(content, PACKAGE_MIRROR@) || !contains(content, APT_UPDATE@) ==> apt_mirror_patch(
            content,
        ) is None,
{
    let n = before.len() as int;
    if is_first_behind(content, before, EXPORTER_MODULE@) {
        lemma_find_from_is(content, EXPORTER_MODULE@, 0, n);
    }
    if is_first_behind(content, before, AGENT_IMPORT@) && !contains(content, ASYNC_MARK@) {
        lemma_find_from_is(content, AGENT_IMPORT@, 0, n);
        let head = crate::patches::ASYNC_SHIM_START@;
        let tail = crate::patches::ASYNC_SHIM_END@ + "\n"@ + AGENT_IMPORT@;
        let rest = content.skip(n + AGENT_IMPORT@.len());
        let patched = agent_async_patch(content)->0;
        assert(patched =~= (before + head) + ASYNC_MARK@ + (tail + rest));
        lemma_inside(before + head, ASYNC_MARK@, tail + rest);
        assert(patched.take(n) =~= before);
        assert(content.skip(n) =~= AGENT_IMPORT@ + rest) by {
            assert(content.subrange(n, n + AGENT_IMPORT@.len()) == AGENT_IMPORT@);
            assert(content.skip(n) =~= content.subrange(n, n + AGENT_IMPORT@.len()) + rest);
        }
        let behind = content.skip(n);
        let front = before + head + ASYNC_MARK@ + crate::patches::ASYNC_SHIM_END@ + "\n"@;
        assert(patched =~= front + behind);
        assert(patched.skip(patched.len() - behind.len()) =~= behind);
    }
    if is_first_behind(content, before, APT_UPDATE@) && !contains(content, PACKAGE_MIRROR@) {
        lemma_find_from_is(content, APT_UPDATE@, 0, n);
        let head = crate::patches::APT_FALLBACK_START@;
        let tail = crate::patches::APT_FALLBACK_END@;
        let rest = content.skip(n + APT_UPDATE@.len());
        let patched = apt_mirror_patch(content)->0;
        assert(patched =~= (before + head) + PACKAGE_MIRROR@ + (tail + rest));
        lemma_inside(before + head, PACKAGE_MIRROR@, tail + rest);
        assert(patched.take(n) =~= before);
        assert(patched.skip(patched.len() - rest.len()) =~= rest);
    }
}

/// A build file chooses mirrors in place of its choice of an index, exactly where it has such a
/// choice, installs its dependencies and names no mirror yet. What stands before the choice stays, and
/// so does what stands behind it.
pub proof fn law_mirrors_take_the_place_of_the_index(content: Seq<char>, before: Seq<char>)
    ensures
        is_first_behind(content, before, INDEX_CHOICE@) && contains(content, DEPENDENCY_SYNC@)
            && !contains(content, REPOSITORY_MIRROR@) ==> ({
            let rest = content.skip(before.len() as int);
            mirrors_patch(content) matches Some(patched) && starts_with(patched, before)
                && contains(patched, REPOSITORY_MIRROR@) && ends_with(
                patched,
                rest.skip(choice_end(rest)),
            )
        }),
        !contains(content, INDEX_CHOICE@) || !contains(content, DEPENDENCY_SYNC@) || contains(
            content,
            REPOSITORY_MIRROR@,
        ) ==> mirrors_patch(content) is None,
{
    let n = before.len() as int;
    crate::search::lemma_find(content, INDEX_CHOICE@);
    if is_first_behind(content, before, INDEX_CHOICE@) && contains(content, DEPENDENCY_SYNC@)
        && !contains(content, REPOSITORY_MIRROR@) {
        lemma_find_from_is(content, INDEX_CHOICE@, 0, n);
        let rest = content.skip(n);
        crate::search::lemma_find(rest, crate::patches::HOST_CHOICE@);
        crate::search::lemma_find(rest, crate::patches::LINK_MODE@);
        let behind = rest.skip(choice_end(rest));
        let head = crate::patches::SPEED_CHOICE_START@;
        let tail = crate::patches::SPEED_CHOICE_END@;
        let patched = mirrors_patch(content)->0;
        assert(patched =~= (before + head) + REPOSITORY_MIRROR@ + (tail + behind));
        lemma_inside(before + head, REPOSITORY_MIRROR@, tail + behind);
        assert(patched.take(n) =~= before);
        assert(patched.skip(patched.len() - behind.len()) =~= behind);
    }
}

// ---------------------------------------------------------------------------------------------
// What tools say
// ---------------------------------------------------------------------------------------------
/// The first line that tells something is the one that counts.
pub proof fn law_first_line_that_tells(
    rows: Seq<Seq<char>>,
    tell: spec_fn(Seq<char>) -> Option<Seq<char>>,
    i: int,
)
    requires
        0 <= i <= rows.len(),
        forall|j: int| 0 <= j < i ==> tell(#[trigger] rows[j]) is None,
    ensures
        i < rows.len() && tell(rows[i]) is Some ==> first_told(rows, tell) == tell(rows[i]),
        i == rows.len() ==> first_told(rows, tell) is None,
    decreases rows.len(),
{
    if i > 0 {
        assert(tell(rows[0]) is None);
        let rest = rows.skip(1);
        assert forall|j: int| 0 <= j < i - 1 implies tell(#[trigger] rest[j]) is None by {
            assert(rest[j] == rows[j + 1]);
        }
        law_first_line_that_tells(rest, tell, i - 1);
    }
}

/// A line with the name of a tool and a word `v1.2` behind it gives the name and `1.2`; a line of
/// another tool gives nothing. A line that starts with `agentseek v`, in whatever case, and names a
/// version gives itself.
pub proof fn law_versions_in_lines(line: Seq<char>, tool: Seq<char>, version: Seq<char>)
    ensures
        words(line).len() >= 2 && words(line)[0] == tool && words(line)[1] == "v"@ + version && (
        version.len() == 0 || version[0] != 'v') ==> tool_version_in_line(line, tool) == Some(
            tool + " "@ + version,
        ),
        words(line).len() < 2 || words(line)[0] != tool ==> tool_version_in_line(line, tool)
            is None,
        agentseek_version_in_line(line) is Some <==> starts_with(
            ascii_lower(trim(line)),
            "agentseek v"@,
        ) && version_of(trim(line)).len() > 0,
        agentseek_version_in_line(line) matches Some(said) ==> said == trim(line),
{
    reveal_strlit("v");
    let word = "v"@ + version;
    assert("v"@ =~= seq!['v']);
    assert(word[0] == 'v');
    assert("v"@[0] == 'v');
    assert("v"@.contains('v'));
    assert(word.skip(1) =~= version);
    assert(word.take(1) =~= "v"@);
    assert(starts_with(word, "v"@));
    if version.len() == 0 || version[0] != 'v' {
        if version.len() > 0 {
            assert(!"v"@.contains(version[0]));
        }
        reveal_with_fuel(trim_start_of, 3);
        assert(trim_start_of(word, "v"@) == version);
    }
}

/// The line `ID=name` of a description gives the name of a distribution, with or without double
/// quotes round it; a line that starts otherwise gives none.
pub proof fn law_distributions_are_read(line: Seq<char>, name: Seq<char>)
    ensures
        name.len() > 0 && name[0] != '"' && name[0] != '\'' && name.last() != '"' && name.last()
            != '\'' ==> distribution_in_line("ID="@ + name) == Some(name) && distribution_in_line(
            "ID=\""@ + name + "\""@,
        ) == Some(name),
        !starts_with(line, "ID="@) ==> distribution_in_line(line) is None,
{
    if name.len() > 0 && name[0] != '"' && name[0] != '\'' && name.last() != '"' && name.last()
        != '\'' {
        reveal_strlit("ID=");
        reveal_strlit("ID=\"");
        reveal_strlit("\"");
        reveal_strlit("\"'");
        let set = "\"'"@;
        assert(set.len() == 2 && set[0] == '"' && set[1] == '\'');
        assert(!set.contains(name[0]));
        assert(!set.contains(name.last()));
        assert(set.contains('"')) by {
            assert(set[0] == '"');
        }
        let plain = "ID="@ + name;
        assert(plain.take(3) =~= "ID="@);
        assert(plain.skip(3) =~= name);
        let quoted = "ID=\""@ + name + "\""@;
        assert(quoted.take(3) =~= "ID="@);
        let inner = quoted.skip(3);
        assert(inner =~= seq!['"'] + name + seq!['"']);
        assert(inner[0] == '"');
        let half = inner.skip(1);
        assert(half =~= name + seq!['"']);
        assert(half[0] == name[0]);
        reveal_with_fuel(trim_start_of, 3);
        assert(trim_start_of(inner, set) == half);
        assert(half.last() == '"');
        assert(half.drop_last() =~= name);
        reveal_with_fuel(trim_end_of, 3);
        assert(trim_end_of(half, set) == name);
    }
}

/// The command that installs Node.js names the directory it goes to, and on a POSIX system where nvm
/// comes from and the wanted major version; elsewhere the wanted version.
pub proof fn law_node_is_installed_apart(
    r: RuntimeRequirements,
    platform: Seq<char>,
    root: Seq<char>,
)
    ensures
        ({
            let command = node_command(r, platform, Some(root));
            let posix = platform == "macos"@ || platform == "debian"@ || platform == "rhel"@
                || platform == "linux"@;
            &&& posix ==> contains(command, join_path('/', root, "nvm"@)) && contains(
                command,
                nvm_address(r),
            ) && contains(command, "nvm install "@ + decimal(node_major(r)))
            &&& !posix ==> contains(command, r.versions.node.managed@) && contains(command, root)
        }),
{
    let nvm = join_path('/', root, "nvm"@);
    let posix = platform == "macos"@ || platform == "debian"@ || platform == "rhel"@ || platform
        == "linux"@;
    let v = r.versions.node.managed@;
    if posix {
        lemma_words_before_a_number();
        lemma_parts_of_a_command(
            "unset npm_config_prefix && export NVM_DIR=\""@,
            nvm,
            "\" PROFILE=/dev/null && curl -o- "@,
            nvm_address(r),
            " | bash && . \""@,
            "/nvm.sh\" && "@,
            "nvm install "@,
            decimal(node_major(r)),
            " && node --version && npm --version"@,
        );
    } else if platform == "windows"@ {
        lemma_parts_of_a_notice(
            "Downloading Node.js "@,
            v,
            " official ZIP to "@,
            root,
            " (for AgentSeek Desktop only)"@,
        );
    } else {
        lemma_parts_of_a_notice(
            "Installing Node.js "@,
            v,
            " to AgentSeek Desktop private runtime directory "@,
            root,
            Seq::<char>::empty(),
        );
        let said = "Installing Node.js "@ + v
            + " to AgentSeek Desktop private runtime directory "@ + root;
        assert(said + Seq::<char>::empty() =~= said);
    }
}

proof fn lemma_words_before_a_number()
    ensures
        "/nvm.sh\" && nvm install "@ == "/nvm.sh\" && "@ + "nvm install "@,
{
    reveal_strlit("/nvm.sh\" && nvm install ");
    reveal_strlit("nvm install ");
    reveal_strlit("/nvm.sh\" && ");
    assert("/nvm.sh\" && nvm install "@ =~= "/nvm.sh\" && "@ + "nvm install "@);
}

proof fn lemma_parts_of_a_command(
    a: Seq<char>,
    x: Seq<char>,
    b: Seq<char>,
    y: Seq<char>,
    c: Seq<char>,
    d: Seq<char>,
    verb: Seq<char>,
    n: Seq<char>,
    f: Seq<char>,
)
    ensures
        contains(a + x + b + y + c + x + (d + verb) + n + f, x),
        contains(a + x + b + y + c + x + (d + verb) + n + f, y),
        contains(a + x + b + y + c + x + (d + verb) + n + f, verb + n),
{
    let none = Seq::<char>::empty();
    let one = a + x;
    let two = one + b + y;
    let three = two + c + x;
    let four = three + (d + verb);
    lemma_inside(a, x, none);
    lemma_goes_on(one, b, x);
    lemma_goes_on(one + b, y, x);
    lemma_inside(one + b, y, none);
    lemma_goes_on(two, c, x);
    lemma_goes_on(two + c, x, x);
    lemma_goes_on(two, c, y);
    lemma_goes_on(two + c, x, y);
    lemma_goes_on(three, d + verb, x);
    lemma_goes_on(three, d + verb, y);
    lemma_goes_on(four, n, x);
    lemma_goes_on(four, n, y);
    lemma_goes_on(four + n, f, x);
    lemma_goes_on(four + n, f, y);
    lemma_verb(three, d, verb, n);
    lemma_goes_on(four + n, f, verb + n);
}

proof fn lemma_verb(three: Seq<char>, d: Seq<char>, verb: Seq<char>, n: Seq<char>)
    ensures
        contains(three + (d + verb) + n, verb + n),
{
    let all = three + (d + verb) + n;
    let pat = verb + n;
    let i = three.len() + d.len();
    let found = all.subrange(i as int, (i + pat.len()) as int);
    assert forall|k: int| 0 <= k < pat.len() implies found[k] == pat[k] by {
        assert(found[k] == all[i + k]);
    }
    assert(found =~= pat);
    assert(at(all, pat, i as int));
}

proof fn lemma_goes_on(s: Seq<char>, more: Seq<char>, pat: Seq<char>)
    requires
        contains(s, pat),
    ensures
        contains(s + more, pat),
{
    let k = choose|k: int| at(s, pat, k);
    assert((s + more).subrange(k, k + pat.len()) =~= s.subrange(k, k + pat.len()));
    assert(at(s + more, pat, k));
}

proof fn lemma_parts_of_a_notice(
    a: Seq<char>,
    x: Seq<char>,
    b: Seq<char>,
    y: Seq<char>,
    c: Seq<char>,
)
    ensures
        contains(a + x + b + y + c, x),
        contains(a + x + b + y + c, y),
{
    lemma_inside(a, x, b + y + c);
    assert(a + x + b + y + c =~= a + x + (b + y + c));
    lemma_inside(a + x + b, y, c);
}

/// The major version of Node.js is the first number of the version that is wanted. nvm comes from an
/// address with its version, and where that fails from one of two mirrors.
pub proof fn law_sources_of_node(r: RuntimeRequirements)
    ensures
        version_of(r.versions.node.managed@).len() > 0 ==> node_major(r) == version_of(
            r.versions.node.managed@,
        )[0],
        contains(r.sources.nvm_installer_template@, "{version}"@) ==> contains(
            nvm_address(r),
            r.versions.nvm.managed@,
        ),
        contains(nvm_line(r), shell_word(nvm_address(r))),
        contains(
            nvm_line(r),
            shell_word(
                "https://gitee.com/mirrors/nvm/raw/v"@ + r.versions.nvm.managed@ + "/install.sh"@,
            ),
        ),
        contains(nvm_line(r), shell_word("https://ghproxy.net/"@ + nvm_address(r))),
        windows_architecture(true) == "win-arm64"@,
        windows_architecture(false) == "win-x64"@,
{
    if contains(r.sources.nvm_installer_template@, "{version}"@) {
        reveal_strlit("{version}");
        assert("{version}"@.len() == 9);
        lemma_replacement_is_there(
            r.sources.nvm_installer_template@,
            "{version}"@,
            r.versions.nvm.managed@,
        );
    }
    let a = "if [ ! -s \"$NVM_DIR/nvm.sh\" ]; then run_shell_installer "@;
    let b = " nvm || run_shell_installer "@;
    let c = " nvm; fi"@;
    let one = shell_word(nvm_address(r));
    let two = shell_word(
        "https://gitee.com/mirrors/nvm/raw/v"@ + r.versions.nvm.managed@ + "/install.sh"@,
    );
    let three = shell_word("https://ghproxy.net/"@ + nvm_address(r));
    lemma_parts_of_a_notice(a, one, b, two, b + three + c);
    assert(nvm_line(r) =~= a + one + b + two + (b + three + c));
    lemma_inside(a + one + b + two + b, three, c);
}

/// How AgentSeek is called where no program was named for it: from a checkout through uv, else by the
/// program that is installed, else by one that was found, and at last through uvx.
pub proof fn law_ways_to_call_agentseek(
    repo: Seq<char>,
    program: Seq<char>,
    installed: Option<Seq<char>>,
    resolved: Option<Seq<char>>,
)
    ensures
        parts_of_cli(None, Some(repo), installed, resolved) == (
            "uv"@,
            seq!["run"@, "--project"@, repo, "agentseek"@],
        ),
        parts_of_cli(None, None, Some(program), resolved) == (program, Seq::<Seq<char>>::empty()),
        parts_of_cli(None, None, None, Some(program)) == (program, Seq::<Seq<char>>::empty()),
        parts_of_cli(None, None, None, None) == ("uvx"@, seq!["agentseek"@]),
{
}

/// An exit code is told with its sign, and so is an end without one.
pub proof fn law_exit_codes_are_told(code: i32)
    ensures
        code >= 0 ==> exit_status(Some(code)) == decimal(code as nat),
        code < 0 ==> exit_status(Some(code)) == "-"@ + decimal((-code) as nat),
        exit_status(None) == "terminated by system"@,
{
}

/// A search ends at a file of the name that it looks for, and goes into each directory that it is not
/// too deep for.
pub proof fn law_entries_of_a_search(entry: PendingEntry, filename: Seq<char>)
    ensures
        is_wanted(entry, filename) <==> entry.is_file && entry.name is Some && entry.name->0@
            == filename,
        is_entered(entry) <==> entry.is_dir && entry.depth > 0,
{
}

/// The lines that are not blank come trimmed and in reverse.
pub proof fn law_lines_come_from_the_last(rows: Seq<Seq<char>>)
    ensures
        lines_from_last(rows) == rows.filter(|l: Seq<char>| trim(l).len() > 0).map_values(
            |l: Seq<char>| trim(l),
        ).reverse(),
    decreases rows.len(),
{
    let kept = |l: Seq<char>| trim(l).len() > 0;
    let cut = |l: Seq<char>| trim(l);
    reveal(Seq::filter);
    if rows.len() > 0 {
        law_lines_come_from_the_last(rows.drop_last());
        let rest = rows.drop_last().filter(kept);
        if trim(rows.last()).len() > 0 {
            assert(rows.filter(kept) =~= rest.push(rows.last()));
            assert(rest.push(rows.last()).map_values(cut).reverse() =~= seq![trim(rows.last())]
                + rest.map_values(cut).reverse());
        } else {
            assert(rows.filter(kept) =~= rest);
        }
        assert(lines_from_last(rows) =~= rows.filter(kept).map_values(cut).reverse());
    } else {
        assert(lines_from_last(rows) =~= rows.filter(kept).map_values(cut).reverse());
    }
}

/// What is said of a failed query ends with what the program said, where it said anything.
pub proof fn law_failed_queries_are_told(code: Option<i32>, stderr: Seq<char>)
    ensures
        contains(fetch_fault(code, stderr), exit_status(code)),
        trim(stderr).len() > 0 ==> ends_with(fetch_fault(code, stderr), trim(stderr)),
{
    let said = fetch_fault(code, stderr);
    let a = "Failed to query AgentSeek latest version (curl exit status: "@;
    let b = exit_status(code);
    let rest = trim(stderr);
    if rest.len() == 0 {
        lemma_inside(a, b, ")"@);
    } else {
        let tail = ")"@ + "\u{ff1a}"@ + rest;
        lemma_inside(a, b, tail);
        assert(said =~= a + b + tail);
        assert(said.skip(said.len() - rest.len()) =~= rest);
    }
}

/// A template `framework/name` is of the framework before the slash.
pub proof fn law_framework_of_a_template(
    rows: Seq<Seq<char>>,
    row: Seq<char>,
    framework: Seq<char>,
    name: Seq<char>,
)
    requires
        trim(row) == framework + "/"@ + name,
        template_line(trim(row)),
        forall|k: int| 0 <= k < framework.len() ==> framework[k] != '/',
    ensures
        template_scan(rows.push(row)).templates.last().framework == framework,
{
    reveal_strlit("/");
    assert("/"@ =~= seq!['/']);
    let t = framework + "/"@ + name;
    let k = framework.len() as int;
    assert(t[k] == '/');
    assert forall|j: int| 0 <= j < k implies t[j] != '/' by {
        assert(t[j] == framework[j]);
    }
    lemma_first_char(t, '/', k);
    assert(t.take(k) =~= framework);
    assert(rows.push(row).drop_last() =~= rows);
    assert(rows.push(row).last() == row);
}

// ---------------------------------------------------------------------------------------------
// Programs
// ---------------------------------------------------------------------------------------------
/// Programs are looked for first among the managed versions of Node.js, the newest first, then in the
/// place that was chosen for Node.js, then in four places of the home directory and in those of the
/// system, and at last, in their order, where they were looked for before.
pub proof fn law_places_of_programs(facts: SearchFacts, i: int)
    ensures
        ({
            let path = search_path(facts);
            let old = texts(facts.existing@);
            let names = newest_versions(texts(facts.node_versions@));
            let managed = if facts.runtime_root is Some {
                names.len() as int
            } else {
                0
            };
            let chosen = if facts.node_bin is Some {
                managed + 1
            } else {
                managed
            };
            let homes = if facts.home is Some {
                chosen + 4
            } else {
                chosen
            };
            &&& path.len() == homes + 5 + old.len()
            &&& facts.runtime_root is Some && 0 <= i < names.len() ==> path[i] == join_path(
                facts.separator,
                join_path(
                    facts.separator,
                    join_path(facts.separator, facts.runtime_root->0@, "nvm/versions/node"@),
                    names[i],
                ),
                "bin"@,
            )
            &&& facts.node_bin matches Some(bin) ==> path[managed] == bin@
            &&& facts.home matches Some(home) ==> path[chosen] == join_path(
                facts.separator,
                home@,
                ".local/bin"@,
            ) && path[chosen + 1] == join_path(facts.separator, home@, ".cargo/bin"@) && path[chosen
                + 2] == join_path(facts.separator, home@, ".pyenv/shims"@) && path[chosen + 3]
                == join_path(facts.separator, home@, ".pyenv/bin"@)
            &&& path[homes] == "/opt/homebrew/bin"@ && path[homes + 1] == "/usr/local/bin"@
                && path[homes + 2] == "/usr/bin"@ && path[homes + 3] == "/bin"@
            &&& 0 <= i < old.len() ==> path[homes + 5 + i] == old[i]
        }),
{
}

/// The managed Node.js lies in a directory of its version: on Windows in one of the version and the
/// architecture, elsewhere below nvm. Where the very version is not there, the newest of the same
/// major version is taken.
pub proof fn law_place_of_node(
    root: Seq<char>,
    version: Seq<char>,
    arm: bool,
    names: Seq<Seq<char>>,
)
    requires
        root.len() > 2,
        root.last() != '/',
        root.last() != '\\',
    ensures
        node_bin_of(root, version, Some(true), true, names) == root + "\\"@ + ("node-v"@ + version
            + "-win-arm64"@),
        node_bin_of(root, version, Some(false), true, names) == root + "\\"@ + ("node-v"@ + version
            + "-win-x64"@),
        node_bin_of(root, version, None, true, names) == root + "/nvm/versions/node/v"@ + version
            + "/bin"@ || version.len() == 0 || version.last() == '/',
        newest_name(names, major_of(version)) matches Some(name) ==> name.len() == 0 || name.last()
            == '/' || node_bin_of(root, version, None, false, names) == root
            + "/nvm/versions/node/"@ + name + "/bin"@,
        newest_name(names, major_of(version)) is None ==> node_bin_of(
            root,
            version,
            None,
            false,
            names,
        ) == node_bin_of(root, version, None, true, names),
{
    reveal_strlit("nvm");
    reveal_strlit("versions");
    reveal_strlit("node");
    reveal_strlit("bin");
    reveal_strlit("/");
    reveal_strlit("\\");
    reveal_strlit("v");
    reveal_strlit("/bin");
    reveal_strlit("/nvm/versions/node/v");
    reveal_strlit("/nvm/versions/node/");
    reveal_strlit("node-v");
    reveal_strlit("-");
    reveal_strlit("win-arm64");
    reveal_strlit("win-x64");
    reveal_strlit("-win-arm64");
    reveal_strlit("-win-x64");
    let a = "node-v"@ + version + "-"@ + "win-arm64"@;
    let b = "node-v"@ + version + "-"@ + "win-x64"@;
    assert(a =~= "node-v"@ + version + "-win-arm64"@);
    assert(b =~= "node-v"@ + version + "-win-x64"@);
    assert(a[1] == 'o' && b[1] == 'o');
    assert(join_path('\\', root, a) =~= root + "\\"@ + a);
    assert(join_path('\\', root, b) =~= root + "\\"@ + b);
    let one = join_path('/', root, "nvm"@);
    assert(one =~= root + "/"@ + "nvm"@);
    assert(one.last() == 'm');
    let two = join_path('/', one, "versions"@);
    assert(two =~= one + "/"@ + "versions"@);
    assert(two.last() == 's');
    let dir = join_path('/', two, "node"@);
    assert(dir =~= two + "/"@ + "node"@);
    assert(dir.last() == 'e');
    if version.len() > 0 && version.last() != '/' {
        let own = "v"@ + version;
        assert(own.last() == version.last());
        let exact = join_path('/', dir, own);
        assert(exact =~= dir + "/"@ + own);
        assert(exact.last() == own.last());
        assert(join_path('/', exact, "bin"@) =~= exact + "/"@ + "bin"@);
        assert(exact + "/"@ + "bin"@ =~= root + "/nvm/versions/node/v"@ + version + "/bin"@);
    }
    match newest_name(names, major_of(version)) {
        Some(name) => {
            if name.len() > 0 && name.last() != '/' {
                let exact = join_path('/', dir, name);
                assert(exact =~= dir + "/"@ + name);
                assert(exact.last() == name.last());
                assert(join_path('/', exact, "bin"@) =~= exact + "/"@ + "bin"@);
                assert(exact + "/"@ + "bin"@ =~= root + "/nvm/versions/node/"@ + name + "/bin"@);
            }
        },
        None => {},
    }
}

/// AgentSeek is looked for in the directory that uv tells, and nowhere where uv fails or tells none.
pub proof fn law_place_of_agentseek(stdout: Seq<char>)
    ensures
        agentseek_place(false, stdout, true) is None && agentseek_place(false, stdout, false)
            is None,
        trim(stdout).len() == 0 ==> agentseek_place(true, stdout, true) is None && agentseek_place(
            true,
            stdout,
            false,
        ) is None,
        trim(stdout).len() > 0 && trim(stdout).last() != '/' ==> agentseek_place(true, stdout, false)
            == Some(trim(stdout) + "/"@ + "agentseek"@),
        trim(stdout).len() > 2 && trim(stdout).last() != '/' && trim(stdout).last() != '\\'
            ==> agentseek_place(true, stdout, true) == Some(
            trim(stdout) + "\\"@ + "agentseek.exe"@,
        ),
{
    reveal_strlit("/");
    reveal_strlit("\\");
    reveal_strlit("agentseek.exe");
    let t = trim(stdout);
    assert(t.push('/') + "agentseek"@ =~= t + "/"@ + "agentseek"@);
    assert(t.push('\\') + "agentseek.exe"@ =~= t + "\\"@ + "agentseek.exe"@);
}

// ---------------------------------------------------------------------------------------------
// Processes
// ---------------------------------------------------------------------------------------------
/// The processes that lines name are exactly the numbers that the lines hold.
pub proof fn law_processes_are_read(list: Seq<Seq<char>>, pid: u32)
    ensures
        pids_in(list).contains(pid) <==> exists|i: int|
            0 <= i < list.len() && parse_unsigned(trim(#[trigger] list[i]), 0xffff_ffff) == Some(
                pid as nat,
            ),
    decreases list.len(),
{
    if list.len() > 0 {
        let rest = list.drop_last();
        let last = list[list.len() - 1];
        law_processes_are_read(rest, pid);
        let told = parse_unsigned(trim(last), 0xffff_ffff);
        let before = pids_in(rest);
        if told is Some {
            assert(pids_in(list) == before.push(told->0 as u32));
        }
        if pids_in(list).contains(pid) {
            let k = choose|k: int| 0 <= k < pids_in(list).len() && pids_in(list)[k] == pid;
            if k < before.len() {
                assert(before[k] == pid);
                let i = choose|i: int|
                    0 <= i < rest.len() && parse_unsigned(trim(#[trigger] rest[i]), 0xffff_ffff)
                        == Some(pid as nat);
                assert(list[i] == rest[i]);
            } else {
                assert(list[list.len() - 1] == last);
            }
        }
        if exists|i: int|
            0 <= i < list.len() && parse_unsigned(trim(#[trigger] list[i]), 0xffff_ffff) == Some(
                pid as nat,
            ) {
            let i = choose|i: int|
                0 <= i < list.len() && parse_unsigned(trim(#[trigger] list[i]), 0xffff_ffff)
                    == Some(pid as nat);
            if i < rest.len() {
                assert(rest[i] == list[i]);
                let k = choose|k: int| 0 <= k < before.len() && before[k] == pid;
                assert(pids_in(list)[k] == pid);
            } else {
                assert(pids_in(list)[before.len() as int] == pid);
            }
        }
    }
}

/// A warning is given exactly where a project has a compose file and a part of Docker is missing; it
/// names the file and every part that is missing.
pub proof fn law_missing_docker_is_told(file: Option<Seq<char>>, status: DockerStatus)
    ensures
        docker_warning(file, status) is Some <==> file is Some && !(status.cli_available
            && status.compose_v2_available && status.daemon_running),
        docker_warning(file, status) matches Some(said) ==> contains(said, file->0) && (
        !status.cli_available ==> contains(said, "Docker CLI not installed"@)) && (
        !status.compose_v2_available ==> contains(said, "Docker Compose V2 not installed"@)) && (
        !status.daemon_running ==> contains(said, "Docker not started"@)),
{
    let parts = missing_parts(status);
    if file is Some && parts.len() > 0 {
        let said = docker_warning(file, status)->0;
        let a = "Project contains "@;
        let b = ", but"@;
        let list = join(parts, "\u{3001}"@);
        let c = ". Please install and start Docker before continuing."@;
        lemma_inside(a, file->0, b + list + c);
        assert(said =~= a + file->0 + (b + list + c));
        let x = "Docker CLI not installed"@;
        let y = "Docker Compose V2 not installed"@;
        let z = "Docker not started"@;
        let m = if status.cli_available {
            0int
        } else {
            1
        };
        let n = if status.compose_v2_available {
            m
        } else {
            m + 1
        };
        if !status.cli_available {
            assert(parts[0] == x);
            law_joined_texts_are_all_there(parts, "\u{3001}"@, 0);
            lemma_inside_part(a + file->0 + b, list, c, x);
        }
        if !status.compose_v2_available {
            assert(parts[m] == y);
            law_joined_texts_are_all_there(parts, "\u{3001}"@, m);
            lemma_inside_part(a + file->0 + b, list, c, y);
        }
        if !status.daemon_running {
            assert(parts[n] == z);
            law_joined_texts_are_all_there(parts, "\u{3001}"@, n);
            lemma_inside_part(a + file->0 + b, list, c, z);
        }
    }
}

/// Of the names of compose files the first that is there counts, in an order in which
/// `docker-compose.yml` comes first.
pub proof fn law_first_compose_file(names: Seq<Seq<char>>, files: Seq<Seq<char>>, i: int)
    requires
        0 <= i <= names.len(),
        forall|j: int| 0 <= j < i ==> !files.contains(#[trigger] names[j]),
    ensures
        i < names.len() && files.contains(names[i]) ==> first_present(names, files) == Some(
            names[i],
        ),
        i == names.len() ==> first_present(names, files) is None,
        compose_names() == seq![
            "docker-compose.yml"@,
            "docker-compose.yaml"@,
            "compose.yml"@,
            "compose.yaml"@,
        ],
    decreases names.len(),
{
    if i > 0 {
        assert(!files.contains(names[0]));
        let rest = names.skip(1);
        assert forall|j: int| 0 <= j < i - 1 implies !files.contains(#[trigger] rest[j]) by {
            assert(rest[j] == names[j + 1]);
        }
        law_first_compose_file(rest, files, i - 1);
    }
}

/// A directory is deleted exactly where it is a directory and no link, has a parent, and is neither
/// the home directory nor the one that the application runs in.
pub proof fn law_directories_that_go(facts: WorkDirFacts)
    ensures
        removal_fault(facts) is None <==> !facts.is_link && facts.is_dir && facts.has_parent
            && opt_text(facts.home) != Some(facts.canonical@) && opt_text(facts.current) != Some(
            facts.canonical@,
        ),
{
}

/// What is said of processes names each of them: those that were stopped with their programs, and
/// those that could not be.
pub proof fn law_processes_are_told(
    work_dir: Seq<char>,
    stopped: Seq<StoppedProcess>,
    pids: Seq<u32>,
    i: int,
)
    ensures
        contains(stop_message(work_dir, stopped), work_dir),
        0 <= i < stopped.len() ==> contains(
            stop_message(work_dir, stopped),
            "  PID "@ + decimal(stopped[i].pid as nat) + "  "@ + stopped[i].executable@,
        ),
        0 <= i < pids.len() ==> contains(still_running_message(pids), decimal(pids[i] as nat)),
{
    let none = Seq::<char>::empty();
    let a = "Instance associated processes stopped\nWorking directory: "@;
    let b = "\nProcess count: "@ + decimal(stopped.len()) + "\nDetails:\n"@;
    let rows = stopped.map_values(|p: StoppedProcess| process_line(p));
    let c = if stopped.len() == 0 {
        "  No running associated processes found"@
    } else {
        join(rows, "\n"@)
    };
    lemma_inside(a, work_dir, b + c);
    assert(stop_message(work_dir, stopped) =~= a + work_dir + (b + c));
    if 0 <= i < stopped.len() {
        law_joined_texts_are_all_there(rows, "\n"@, i);
        lemma_inside_part(a + work_dir + b, c, none, process_line(stopped[i]));
        assert(stop_message(work_dir, stopped) =~= a + work_dir + b + c);
    }
    if 0 <= i < pids.len() {
        let list = crate::processes::pid_texts(pids);
        law_joined_texts_are_all_there(list, ", "@, i);
        lemma_inside_part(
            "Failed to stop the following processes: ["@,
            join(list, ", "@),
            "]"@,
            decimal(pids[i] as nat),
        );
    }
}

} // verus!
