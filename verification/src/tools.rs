//! The tools that the application needs: what it requires of them and what it finds.
use vstd::prelude::*;
use vstd::string::*;

use crate::json::{json_fault, json_string};
use crate::model::{TemplateInfo, TemplateInfoView};
use crate::number::{decimal, decimal_text};
use crate::paths::{join_path, path_below};
use crate::search::{
    behind_last, before_first, contains, text_has, has_prefix, starts_with, text_before_first,
    text_behind_last, trim, trim_of, trimmed, trimmed_of, without_prefix,
};
use crate::split::{
    lines, replace_all, replaced, runs, split, split_texts, text_lines, text_runs,
};
use crate::text::{
    chars_of, is_ascii_letter, is_digit, join, join_texts, opt_text, owned, same, text_of_range,
    texts,
};
use crate::unicode::{to_unicode_lower, to_unicode_upper, unicode_lower, unicode_upper};
use crate::versions::{
    agentseek_update_available, at_least, first_told, meets_requirement, numeric_version,
    package_version, parse_agentseek_package_version, update_at_hand, version_of,
};

verus! {

// ---------------------------------------------------------------------------------------------
// Requirements
// ---------------------------------------------------------------------------------------------
/// The versions that are required of a tool.
#[derive(Debug)]
pub struct DependencyVersion {
    pub minimum: String,
    pub managed: String,
}

/// The versions that are required of all tools.
#[derive(Debug)]
pub struct RuntimeVersions {
    pub uv: DependencyVersion,
    pub node: DependencyVersion,
    pub npm: DependencyVersion,
    pub git: DependencyVersion,
    pub agentseek: DependencyVersion,
    pub nvm: DependencyVersion,
}

/// Where tools come from.
#[derive(Debug)]
pub struct RuntimeSources {
    pub uv_installer: String,
    pub uv_installer_windows: Option<String>,
    pub nvm_installer_template: String,
    pub node_distribution: String,
    pub agentseek_package_metadata: String,
}

/// What the application requires of its tools.
#[derive(Debug)]
pub struct RuntimeRequirements {
    pub schema_version: u32,
    pub versions: RuntimeVersions,
    pub sources: RuntimeSources,
}

/// A field that names no version.
pub open spec fn version_fault(field: Seq<char>, value: Seq<char>) -> Option<Seq<char>> {
    if version_of(value).len() == 0 {
        Some(
            "Runtime requirements manifest field "@ + field + " is not a valid version number"@,
        )
    } else {
        None
    }
}

/// A field that holds no HTTPS address.
pub open spec fn address_fault(field: Seq<char>, value: Seq<char>) -> Option<Seq<char>> {
    if !starts_with(value, "https://"@) {
        Some("Runtime requirements manifest field "@ + field + " must use HTTPS URL"@)
    } else {
        None
    }
}

/// The first fault of a list.
pub open spec fn first_fault(faults: Seq<Option<Seq<char>>>) -> Option<Seq<char>>
    decreases faults.len(),
{
    if faults.len() == 0 {
        None
    } else if faults[0] is Some {
        faults[0]
    } else {
        first_fault(faults.skip(1))
    }
}

/// The faults of requirements, in the order in which they are looked for.
pub open spec fn requirement_faults(r: RuntimeRequirements) -> Seq<Option<Seq<char>>> {
    seq![
        version_fault("versions.uv.minimum"@, r.versions.uv.minimum@),
        version_fault("versions.node.minimum"@, r.versions.node.minimum@),
        version_fault("versions.node.managed"@, r.versions.node.managed@),
        version_fault("versions.npm.minimum"@, r.versions.npm.minimum@),
        version_fault("versions.npm.managed"@, r.versions.npm.managed@),
        version_fault("versions.git.minimum"@, r.versions.git.minimum@),
        version_fault("versions.agentseek.minimum"@, r.versions.agentseek.minimum@),
        version_fault("versions.nvm.managed"@, r.versions.nvm.managed@),
        if contains(r.sources.nvm_installer_template@, "{version}"@) {
            None
        } else {
            Some(
                "Runtime requirements manifest sources.nvmInstallerTemplate must contain {version}"@,
            )
        },
        address_fault("sources.uvInstaller"@, r.sources.uv_installer@),
        address_fault("sources.nodeDistribution"@, r.sources.node_distribution@),
        address_fault("sources.agentseekPackageMetadata"@, r.sources.agentseek_package_metadata@),
        match r.sources.uv_installer_windows {
            Some(value) => address_fault("sources.uvInstallerWindows"@, value@),
            None => None,
        },
    ]
}

fn check_version(field: &str, value: &str) -> (r: Option<String>)
    ensures
        opt_text(r) == version_fault(field@, value@),
{
    let numbers: Vec<u64> = numeric_version(value);
    if numbers.len() == 0 {
        Some(
            owned("Runtime requirements manifest field ").concat(field).concat(
                " is not a valid version number",
            ),
        )
    } else {
        None
    }
}

fn check_address(field: &str, value: &str) -> (r: Option<String>)
    ensures
        opt_text(r) == address_fault(field@, value@),
{
    if !has_prefix(value, "https://") {
        Some(
            owned("Runtime requirements manifest field ").concat(field).concat(
                " must use HTTPS URL",
            ),
        )
    } else {
        None
    }
}

pub open spec fn opt_texts(list: Seq<Option<String>>) -> Seq<Option<Seq<char>>> {
    list.map_values(|t: Option<String>| opt_text(t))
}

fn first_of(faults: &Vec<Option<String>>) -> (r: Result<(), String>)
    ensures
        match r {
            Ok(_) => first_fault(opt_texts(faults@)) is None,
            Err(message) => first_fault(opt_texts(faults@)) == Some(message@),
        },
{
    let ghost all = opt_texts(faults@);
    let mut i: usize = 0;
    proof {
        assert(all.skip(0) =~= all);
    }
    while i < faults.len()
        invariant
            i <= faults@.len(),
            all == opt_texts(faults@),
            first_fault(all) == first_fault(all.skip(i as int)),
        decreases faults@.len() - i,
    {
        proof {
            assert(all.skip(i as int)[0] == opt_text(faults@[i as int]));
            assert(all.skip(i as int).skip(1) =~= all.skip(i + 1));
        }
        match &faults[i] {
            Some(message) => {
                return Err(message.clone());
            },
            None => {},
        }
        i += 1;
    }
    Ok(())
}

/// Refuses requirements with a field that names no version or no HTTPS address. The first such field
/// is reported.
pub fn validate_runtime_requirements(requirements: &RuntimeRequirements) -> (r: Result<(), String>)
    ensures
        match r {
            Ok(_) => first_fault(requirement_faults(*requirements)) is None,
            Err(message) => first_fault(requirement_faults(*requirements)) == Some(message@),
        },
{
    let v: &RuntimeVersions = &requirements.versions;
    let s: &RuntimeSources = &requirements.sources;
    let mut faults: Vec<Option<String>> = Vec::new();
    faults.push(check_version("versions.uv.minimum", v.uv.minimum.as_str()));
    faults.push(check_version("versions.node.minimum", v.node.minimum.as_str()));
    faults.push(check_version("versions.node.managed", v.node.managed.as_str()));
    faults.push(check_version("versions.npm.minimum", v.npm.minimum.as_str()));
    faults.push(check_version("versions.npm.managed", v.npm.managed.as_str()));
    faults.push(check_version("versions.git.minimum", v.git.minimum.as_str()));
    faults.push(check_version("versions.agentseek.minimum", v.agentseek.minimum.as_str()));
    faults.push(check_version("versions.nvm.managed", v.nvm.managed.as_str()));
    faults.push(
        if text_has(s.nvm_installer_template.as_str(), "{version}") {
            None
        } else {
            Some(
                owned(
                    "Runtime requirements manifest sources.nvmInstallerTemplate must contain {version}",
                ),
            )
        },
    );
    faults.push(check_address("sources.uvInstaller", s.uv_installer.as_str()));
    faults.push(check_address("sources.nodeDistribution", s.node_distribution.as_str()));
    faults.push(
        check_address("sources.agentseekPackageMetadata", s.agentseek_package_metadata.as_str()),
    );
    faults.push(
        match &s.uv_installer_windows {
            Some(value) => check_address("sources.uvInstallerWindows", value.as_str()),
            None => None,
        },
    );
    proof {
        assert(opt_texts(faults@) =~= requirement_faults(*requirements));
    }
    first_of(&faults)
}

/// Refuses requirements of another version of their format.
pub fn check_schema_version(requirements: &RuntimeRequirements) -> (r: Result<(), String>)
    ensures
        match r {
            Ok(_) => requirements.schema_version == 1,
            Err(message) => requirements.schema_version != 1 && message@
                == "Unsupported runtime requirements manifest version: "@ + decimal(
                requirements.schema_version as nat,
            ),
        },
{
    if requirements.schema_version != 1 {
        return Err(
            owned("Unsupported runtime requirements manifest version: ").concat(
                decimal_text(requirements.schema_version as u64).as_str(),
            ),
        );
    }
    Ok(())
}

/// The address of the installer of nvm.
pub open spec fn nvm_address(r: RuntimeRequirements) -> Seq<char> {
    replace_all(r.sources.nvm_installer_template@, "{version}"@, r.versions.nvm.managed@)
}

/// The address of the installer of nvm.
pub fn nvm_installer(requirements: &RuntimeRequirements) -> (out: String)
    ensures
        out@ == nvm_address(*requirements),
{
    proof {
        reveal_strlit("{version}");
    }
    replaced(
        requirements.sources.nvm_installer_template.as_str(),
        "{version}",
        requirements.versions.nvm.managed.as_str(),
    )
}

/// The first number of the version of Node.js that is installed, or zero.
pub open spec fn node_major(r: RuntimeRequirements) -> nat {
    let version = version_of(r.versions.node.managed@);
    if version.len() == 0 {
        0
    } else {
        version[0] as nat
    }
}

/// The first number of the version of Node.js that is installed, as a text.
pub fn node_major_text(requirements: &RuntimeRequirements) -> (out: String)
    ensures
        out@ == decimal(node_major(*requirements)),
{
    let version: Vec<u64> = numeric_version(requirements.versions.node.managed.as_str());
    if version.len() == 0 {
        decimal_text(0)
    } else {
        decimal_text(version[0])
    }
}

// ---------------------------------------------------------------------------------------------
// Platforms
// ---------------------------------------------------------------------------------------------
/// The name of a distribution in one line of its description.
pub open spec fn distribution_in_line(line: Seq<char>) -> Option<Seq<char>> {
    if starts_with(line, "ID="@) {
        Some(trim_of(line.skip("ID="@.len() as int), "\"'"@))
    } else {
        None
    }
}

pub open spec fn distribution() -> spec_fn(Seq<char>) -> Option<Seq<char>> {
    |line: Seq<char>| distribution_in_line(line)
}

/// The family of a distribution, by its name in lower case.
pub open spec fn family(name: Seq<char>) -> Seq<char> {
    if name == "ubuntu"@ || name == "debian"@ || name == "linuxmint"@ || name == "pop"@ {
        "debian"@
    } else if name == "centos"@ || name == "rhel"@ || name == "fedora"@ || name == "rocky"@ || name
        == "almalinux"@ || name == "ol"@ {
        "rhel"@
    } else {
        "linux"@
    }
}

/// The family of a distribution, by its name in lower case.
pub fn distribution_family(name: &str) -> (out: String)
    ensures
        out@ == family(name@),
{
    if same(name, "ubuntu") || same(name, "debian") || same(name, "linuxmint") || same(
        name,
        "pop",
    ) {
        owned("debian")
    } else if same(name, "centos") || same(name, "rhel") || same(name, "fedora") || same(
        name,
        "rocky",
    ) || same(name, "almalinux") || same(name, "ol") {
        owned("rhel")
    } else {
        owned("linux")
    }
}

/// The name of a distribution in its description.
pub fn distribution_name(os_release: &str) -> (r: Option<String>)
    ensures
        opt_text(r) == first_told(lines(os_release@), distribution()),
{
    let rows: Vec<String> = text_lines(os_release);
    let ghost all = texts(rows@);
    let ghost tell = distribution();
    let mut i: usize = 0;
    proof {
        assert(all.skip(0) =~= all);
    }
    while i < rows.len()
        invariant
            i <= rows@.len(),
            all == texts(rows@),
            all == lines(os_release@),
            tell == distribution(),
            first_told(all, tell) == first_told(all.skip(i as int), tell),
        decreases rows@.len() - i,
    {
        proof {
            assert(all.skip(i as int)[0] == rows@[i as int]@);
            assert(all.skip(i as int).skip(1) =~= all.skip(i + 1));
        }
        match without_prefix(rows[i].as_str(), "ID=") {
            Some(value) => {
                return Some(trimmed_of(value.as_str(), "\"'"));
            },
            None => {},
        }
        i += 1;
    }
    None
}

/// The family of the Linux distribution that a description names.
pub fn linux_platform(os_release: Option<&str>) -> (out: String)
    ensures
        out@ == (match os_release {
            Some(content) => match first_told(lines(content@), distribution()) {
                Some(name) => family(unicode_lower(name)),
                None => family("linux"@),
            },
            None => family("linux"@),
        }),
{
    match os_release {
        Some(content) => match distribution_name(content) {
            Some(name) => {
                let lower: String = to_unicode_lower(name.as_str());
                distribution_family(lower.as_str())
            },
            None => distribution_family("linux"),
        },
        None => distribution_family("linux"),
    }
}

// ---------------------------------------------------------------------------------------------
// Commands that install the tools
// ---------------------------------------------------------------------------------------------
/// The command that installs each tool.
#[derive(Debug, Default)]
pub struct DependencyCommands {
    pub uv: String,
    pub node: String,
    pub npm: String,
    pub git: String,
    pub agentseek: String,
}

/// The directory that the application installs Node.js below.
pub open spec fn shown_runtime_root(root: Option<Seq<char>>) -> Seq<char> {
    match root {
        Some(path) => path,
        None => "<AgentSeek data>/runtime"@,
    }
}

/// The command that installs Node.js for the application alone.
pub open spec fn node_command(
    r: RuntimeRequirements,
    platform: Seq<char>,
    root: Option<Seq<char>>,
) -> Seq<char> {
    let shown = shown_runtime_root(root);
    let nvm = join_path('/', shown, "nvm"@);
    if platform == "macos"@ || platform == "debian"@ || platform == "rhel"@ || platform
        == "linux"@ {
        "unset npm_config_prefix && export NVM_DIR=\""@ + nvm
            + "\" PROFILE=/dev/null && curl -o- "@ + nvm_address(r) + " | bash && . \""@ + nvm
            + "/nvm.sh\" && nvm install "@ + decimal(node_major(r))
            + " && node --version && npm --version"@
    } else if platform == "windows"@ {
        "Downloading Node.js "@ + r.versions.node.managed@ + " official ZIP to "@ + shown
            + " (for AgentSeek Desktop only)"@
    } else {
        "Installing Node.js "@ + r.versions.node.managed@
            + " to AgentSeek Desktop private runtime directory "@ + shown
    }
}

/// The command that installs Git.
pub open spec fn git_command(platform: Seq<char>, git_available: bool) -> Seq<char> {
    if platform == "macos"@ {
        if git_available {
            "brew upgrade git"@
        } else {
            "brew install git"@
        }
    } else if platform == "debian"@ {
        "sudo apt-get update && sudo apt-get install -y git"@
    } else if platform == "rhel"@ {
        "sudo dnf install -y git"@
    } else if platform == "windows"@ {
        "winget install --id Git.Git"@
    } else {
        "Please install the required Git version using your system package manager"@
    }
}

/// The commands that install the tools on a platform.
pub fn dependency_commands(
    requirements: &RuntimeRequirements,
    platform: &str,
    managed_runtime_root: Option<&str>,
    uv_available: bool,
    git_available: bool,
) -> (out: DependencyCommands)
    ensures
        out.uv@ == (if uv_available {
            "uv self update"@
        } else {
            "curl -LsSf "@ + requirements.sources.uv_installer@ + " | sh"@
        }),
        out.node@ == node_command(
            *requirements,
            platform@,
            match managed_runtime_root {
                Some(root) => Some(root@),
                None => None,
            },
        ),
        out.npm@ == out.node@,
        out.git@ == git_command(platform@, git_available),
        out.agentseek@ == "uv tool install --upgrade agentseek"@,
{
    let uv: String = if uv_available {
        owned("uv self update")
    } else {
        owned("curl -LsSf ").concat(requirements.sources.uv_installer.as_str()).concat(" | sh")
    };
    let shown: String = match managed_runtime_root {
        Some(root) => owned(root),
        None => owned("<AgentSeek data>/runtime"),
    };
    let managed: &str = requirements.versions.node.managed.as_str();
    let node: String = if same(platform, "macos") || same(platform, "debian") || same(
        platform,
        "rhel",
    ) || same(platform, "linux") {
        let nvm: String = path_below('/', shown.as_str(), "nvm");
        let mut text: String = owned("unset npm_config_prefix && export NVM_DIR=\"");
        text.append(nvm.as_str());
        text.append("\" PROFILE=/dev/null && curl -o- ");
        text.append(nvm_installer(requirements).as_str());
        text.append(" | bash && . \"");
        text.append(nvm.as_str());
        text.append("/nvm.sh\" && nvm install ");
        text.append(node_major_text(requirements).as_str());
        text.append(" && node --version && npm --version");
        text
    } else if same(platform, "windows") {
        owned("Downloading Node.js ").concat(managed).concat(" official ZIP to ").concat(
            shown.as_str(),
        ).concat(" (for AgentSeek Desktop only)")
    } else {
        owned("Installing Node.js ").concat(managed).concat(
            " to AgentSeek Desktop private runtime directory ",
        ).concat(shown.as_str())
    };
    let git: String = if same(platform, "macos") {
        if git_available {
            owned("brew upgrade git")
        } else {
            owned("brew install git")
        }
    } else if same(platform, "debian") {
        owned("sudo apt-get update && sudo apt-get install -y git")
    } else if same(platform, "rhel") {
        owned("sudo dnf install -y git")
    } else if same(platform, "windows") {
        owned("winget install --id Git.Git")
    } else {
        owned("Please install the required Git version using your system package manager")
    };
    let npm: String = node.clone();
    DependencyCommands {
        uv,
        node,
        npm,
        git,
        agentseek: owned("uv tool install --upgrade agentseek"),
    }
}

// ---------------------------------------------------------------------------------------------
// Status
// ---------------------------------------------------------------------------------------------
/// The least version of each tool.
#[derive(Debug, Default)]
pub struct MinimumVersions {
    pub uv: String,
    pub node: String,
    pub npm: String,
    pub git: String,
    pub agentseek: String,
}

/// What was found of the tools.
#[derive(Debug, Default)]
pub struct CliStatus {
    pub platform: String,
    pub dependency_commands: DependencyCommands,
    pub minimum_versions: MinimumVersions,
    pub node_managed: bool,
    pub uv_available: bool,
    pub uv_path: String,
    pub cli_available: bool,
    pub cli_compatible: bool,
    pub cli_update_available: bool,
    pub cli_latest_version: String,
    pub cli_latest_version_checked: bool,
    pub uv_version: String,
    pub cli_version: String,
    pub node_available: bool,
    pub node_compatible: bool,
    pub node_version: String,
    pub npm_available: bool,
    pub npm_compatible: bool,
    pub npm_version: String,
    pub git_available: bool,
    pub git_compatible: bool,
    pub git_version: String,
    pub uv_compatible: bool,
    pub prerequisites_ready: bool,
    pub install_command: String,
}

/// What asking the tools and the machine gave.
#[derive(Debug)]
pub struct ToolFindings {
    pub platform: String,
    pub runtime_root: Option<String>,
    pub node_managed: bool,
    pub uv_path: Option<String>,
    pub uv_version: Option<String>,
    /// What the command line tool says of itself, the preferred answer first.
    pub cli_versions: Vec<Option<String>>,
    pub cli_available: bool,
    pub node_version: Option<String>,
    pub npm_version: Option<String>,
    pub git_version: Option<String>,
    pub cli_latest_version: Option<String>,
}

/// A text, or nothing as an empty text.
pub open spec fn or_empty(t: Option<Seq<char>>) -> Seq<char> {
    match t {
        Some(s) => s,
        None => seq![],
    }
}

fn text_or_empty(t: &Option<String>) -> (out: String)
    ensures
        out@ == or_empty(opt_text(*t)),
{
    match t {
        Some(s) => s.clone(),
        None => String::new(),
    }
}

/// The first answer of a list.
pub open spec fn first_answer(list: Seq<Option<Seq<char>>>) -> Option<Seq<char>> {
    first_fault(list)
}

fn first_answer_of(list: &Vec<Option<String>>) -> (r: Option<String>)
    ensures
        opt_text(r) == first_answer(opt_texts(list@)),
{
    match first_of(list) {
        Ok(_) => None,
        Err(answer) => Some(answer),
    }
}

/// Judges what was found of the tools. Git is not among the prerequisites.
pub fn current_cli_status(requirements: &RuntimeRequirements, found: &ToolFindings) -> (s: CliStatus)
    ensures
        s.platform@ == found.platform@,
        s.uv_path@ == or_empty(opt_text(found.uv_path)),
        s.uv_version@ == or_empty(opt_text(found.uv_version)),
        s.cli_version@ == or_empty(first_answer(opt_texts(found.cli_versions@))),
        s.node_version@ == or_empty(opt_text(found.node_version)),
        s.npm_version@ == or_empty(opt_text(found.npm_version)),
        s.git_version@ == or_empty(opt_text(found.git_version)),
        s.uv_available == (s.uv_version@.len() > 0),
        s.node_available == (s.node_version@.len() > 0),
        s.npm_available == (s.npm_version@.len() > 0),
        s.git_available == (s.git_version@.len() > 0),
        s.cli_available == found.cli_available,
        s.node_managed == found.node_managed,
        s.uv_compatible == at_least(
            s.uv_version@,
            version_of(requirements.versions.uv.minimum@),
        ),
        s.node_compatible == at_least(
            s.node_version@,
            version_of(requirements.versions.node.minimum@),
        ),
        s.npm_compatible == at_least(
            s.npm_version@,
            version_of(requirements.versions.npm.minimum@),
        ),
        s.git_compatible == at_least(
            s.git_version@,
            version_of(requirements.versions.git.minimum@),
        ),
        s.cli_compatible == at_least(
            s.cli_version@,
            version_of(requirements.versions.agentseek.minimum@),
        ),
        s.prerequisites_ready == (s.uv_compatible && s.node_compatible && s.npm_compatible
            && s.cli_compatible),
        s.cli_latest_version@ == or_empty(opt_text(found.cli_latest_version)),
        s.cli_latest_version_checked == (found.cli_latest_version is Some),
        s.cli_update_available == update_at_hand(
            s.cli_version@,
            opt_text(found.cli_latest_version),
            found.cli_available,
        ),
        s.minimum_versions.uv@ == requirements.versions.uv.minimum@,
        s.minimum_versions.node@ == requirements.versions.node.minimum@,
        s.minimum_versions.npm@ == requirements.versions.npm.minimum@,
        s.minimum_versions.git@ == requirements.versions.git.minimum@,
        s.minimum_versions.agentseek@ == requirements.versions.agentseek.minimum@,
        s.install_command@ == "uv tool install agentseek"@,
        s.dependency_commands.uv@ == (if s.uv_available {
            "uv self update"@
        } else {
            "curl -LsSf "@ + requirements.sources.uv_installer@ + " | sh"@
        }),
        s.dependency_commands.node@ == node_command(
            *requirements,
            found.platform@,
            opt_text(found.runtime_root),
        ),
        s.dependency_commands.npm@ == s.dependency_commands.node@,
        s.dependency_commands.git@ == git_command(found.platform@, s.git_available),
        s.dependency_commands.agentseek@ == "uv tool install --upgrade agentseek"@,
{
    let v: &RuntimeVersions = &requirements.versions;
    let uv_version: String = text_or_empty(&found.uv_version);
    let node_version: String = text_or_empty(&found.node_version);
    let npm_version: String = text_or_empty(&found.npm_version);
    let git_version: String = text_or_empty(&found.git_version);
    let answer: Option<String> = first_answer_of(&found.cli_versions);
    let cli_version: String = text_or_empty(&answer);
    let uv_available: bool = !uv_version.as_str().is_empty();
    let git_available: bool = !git_version.as_str().is_empty();
    let uv_compatible: bool = meets_requirement(uv_version.as_str(), v.uv.minimum.as_str());
    let node_compatible: bool = meets_requirement(node_version.as_str(), v.node.minimum.as_str());
    let npm_compatible: bool = meets_requirement(npm_version.as_str(), v.npm.minimum.as_str());
    let git_compatible: bool = meets_requirement(git_version.as_str(), v.git.minimum.as_str());
    let cli_compatible: bool = meets_requirement(
        cli_version.as_str(),
        v.agentseek.minimum.as_str(),
    );
    let latest: Option<&str> = match &found.cli_latest_version {
        Some(version) => Some(version.as_str()),
        None => None,
    };
    let root: Option<&str> = match &found.runtime_root {
        Some(path) => Some(path.as_str()),
        None => None,
    };
    let cli_update_available: bool = agentseek_update_available(
        cli_version.as_str(),
        latest,
        found.cli_available,
    );
    let commands: DependencyCommands = dependency_commands(
        requirements,
        found.platform.as_str(),
        root,
        uv_available,
        git_available,
    );
    CliStatus {
        platform: found.platform.clone(),
        dependency_commands: commands,
        minimum_versions: MinimumVersions {
            uv: v.uv.minimum.clone(),
            node: v.node.minimum.clone(),
            npm: v.npm.minimum.clone(),
            git: v.git.minimum.clone(),
            agentseek: v.agentseek.minimum.clone(),
        },
        node_managed: found.node_managed,
        uv_available,
        uv_path: text_or_empty(&found.uv_path),
        cli_available: found.cli_available,
        cli_compatible,
        cli_update_available,
        cli_latest_version: text_or_empty(&found.cli_latest_version),
        cli_latest_version_checked: found.cli_latest_version.is_some(),
        uv_version,
        cli_version,
        node_available: !node_version.as_str().is_empty(),
        node_compatible,
        node_version,
        npm_available: !npm_version.as_str().is_empty(),
        npm_compatible,
        npm_version,
        git_available,
        git_compatible,
        git_version,
        uv_compatible,
        prerequisites_ready: uv_compatible && node_compatible && npm_compatible && cli_compatible,
        install_command: owned("uv tool install agentseek"),
    }
}

/// The tools that have to be installed or upgraded.
pub open spec fn needed_tools(s: CliStatus) -> Seq<Seq<char>> {
    (if !s.uv_compatible {
        seq!["uv"@]
    } else {
        seq![]
    }) + (if !s.node_compatible || !s.npm_compatible {
        seq!["node/npm"@]
    } else {
        seq![]
    }) + (if !s.cli_compatible || s.cli_update_available {
        seq!["agentseek"@]
    } else {
        seq![]
    })
}

/// The tools that have to be installed or upgraded.
pub fn required_runtime_dependencies(status: &CliStatus) -> (out: Vec<String>)
    ensures
        texts(out@) == needed_tools(*status),
{
    let mut out: Vec<String> = Vec::new();
    if !status.uv_compatible {
        out.push(owned("uv"));
    }
    if !status.node_compatible || !status.npm_compatible {
        out.push(owned("node/npm"));
    }
    if !status.cli_compatible || status.cli_update_available {
        out.push(owned("agentseek"));
    }
    proof {
        assert(texts(out@) =~= needed_tools(*status));
    }
    out
}

/// Nothing has to be installed exactly where the prerequisites are met and no update is at hand.
pub proof fn law_nothing_needed_when_ready(s: CliStatus)
    requires
        s.prerequisites_ready == (s.uv_compatible && s.node_compatible && s.npm_compatible
            && s.cli_compatible),
    ensures
        needed_tools(s).len() == 0 <==> s.prerequisites_ready && !s.cli_update_available,
{
}

// ---------------------------------------------------------------------------------------------
// Programs
// ---------------------------------------------------------------------------------------------
/// The program that fetches files over the network.
pub fn curl_program(on_macos: bool) -> (program: &'static str)
    ensures
        program@ == (if on_macos {
            "/usr/bin/curl"@
        } else {
            "curl"@
        }),
{
    if on_macos {
        "/usr/bin/curl"
    } else {
        "curl"
    }
}

/// A name that can be handed to a shell as it is: letters, digits, `-`, `_` and `.`.
pub open spec fn plain_name(name: Seq<char>) -> bool {
    name.len() > 0 && forall|i: int|
        0 <= i < name.len() ==> is_ascii_letter(#[trigger] name[i]) || is_digit(name[i]) || name[i]
            == '-' || name[i] == '_' || name[i] == '.'
}

/// Whether a name can be handed to a shell as it is.
pub fn is_plain_name(name: &str) -> (r: bool)
    ensures
        r == plain_name(name@),
{
    let s: Vec<char> = chars_of(name);
    if s.len() == 0 {
        return false;
    }
    let mut i: usize = 0;
    while i < s.len()
        invariant
            i <= s@.len(),
            s@ == name@,
            forall|k: int|
                0 <= k < i ==> is_ascii_letter(#[trigger] s@[k]) || is_digit(s@[k]) || s@[k] == '-'
                    || s@[k] == '_' || s@[k] == '.',
        decreases s@.len() - i,
    {
        let c: char = s[i];
        if !(('a' <= c && c <= 'z') || ('A' <= c && c <= 'Z') || ('0' <= c && c <= '9') || c == '-'
            || c == '_' || c == '.') {
            return false;
        }
        i += 1;
    }
    true
}

/// The lines that are not blank, trimmed, the last one first.
pub open spec fn lines_from_last(rows: Seq<Seq<char>>) -> Seq<Seq<char>>
    decreases rows.len(),
{
    if rows.len() == 0 {
        seq![]
    } else {
        let rest = lines_from_last(rows.drop_last());
        if trim(rows.last()).len() == 0 {
            rest
        } else {
            seq![trim(rows.last())] + rest
        }
    }
}

/// The paths that a login shell printed for a program, the one to try first in front. What the
/// shell prints at its start stands before the answer.
pub fn login_shell_candidates(output: &str) -> (out: Vec<String>)
    ensures
        texts(out@) == lines_from_last(lines(output@)),
{
    let rows: Vec<String> = text_lines(output);
    let ghost all = texts(rows@);
    let mut out: Vec<String> = Vec::new();
    let mut n: usize = rows.len();
    proof {
        assert(all.take(n as int) =~= all);
        assert(texts(out@) + lines_from_last(all) =~= lines_from_last(all));
    }
    while n > 0
        invariant
            n <= rows@.len(),
            all == texts(rows@),
            lines_from_last(all) == texts(out@) + lines_from_last(all.take(n as int)),
        decreases n,
    {
        let ghost done = texts(out@);
        proof {
            assert(all.take(n as int).drop_last() =~= all.take(n - 1));
            assert(all.take(n as int).last() == rows@[n - 1]@);
        }
        let t: String = trimmed(rows[n - 1].as_str());
        if !t.as_str().is_empty() {
            let ghost line = t@;
            out.push(t);
            proof {
                assert(texts(out@) =~= done.push(line));
                assert(done.push(line) + lines_from_last(all.take(n - 1)) =~= done + (seq![line]
                    + lines_from_last(all.take(n - 1))));
            }
        }
        n -= 1;
    }
    proof {
        assert(all.take(0) =~= Seq::<Seq<char>>::empty());
        assert(texts(out@) + lines_from_last(all.take(0)) =~= texts(out@));
    }
    out
}

/// Which of two ways to call a program works: its name as it is, else the path that the login shell
/// found.
pub fn resolved_program(
    program: &str,
    works: bool,
    from_shell: Option<String>,
    shell_one_works: bool,
) -> (r: Option<String>)
    ensures
        opt_text(r) == (if works {
            Some(program@)
        } else if shell_one_works {
            opt_text(from_shell)
        } else {
            None
        }),
{
    if works {
        Some(owned(program))
    } else if shell_one_works {
        from_shell
    } else {
        None
    }
}

/// The outcome of a command.
#[derive(Debug)]
pub struct CommandResult {
    pub code: i32,
    pub output: String,
    pub command: String,
}

/// A command as it is shown: the program and its arguments.
pub open spec fn shown_command(program: Seq<char>, args: Seq<Seq<char>>) -> Seq<char> {
    join(seq![program] + args, " "@)
}

/// A command as it is shown.
pub fn printable_command(program: &str, args: &Vec<String>) -> (out: String)
    ensures
        out@ == shown_command(program@, texts(args@)),
{
    let mut parts: Vec<String> = Vec::new();
    parts.push(owned(program));
    let mut i: usize = 0;
    while i < args.len()
        invariant
            i <= args@.len(),
            texts(parts@) == seq![program@] + texts(args@).take(i as int),
        decreases args@.len() - i,
    {
        let ghost before = texts(parts@);
        parts.push(args[i].clone());
        i += 1;
        proof {
            assert(texts(parts@) =~= before.push(args@[i - 1]@));
            assert(texts(parts@) =~= seq![program@] + texts(args@).take(i as int));
        }
    }
    proof {
        assert(texts(args@).take(i as int) =~= texts(args@));
    }
    join_texts(&parts, " ")
}

/// The outcome of a command of the AgentSeek tool that ran. Without an exit code it counts as failed.
pub fn run_cli(program: &str, args: &Vec<String>, code: Option<i32>, stdout: &str, stderr: &str) -> (r:
    CommandResult)
    ensures
        r.code == (match code {
            Some(c) => c,
            None => 1,
        }),
        r.output@ == trim(stdout@ + stderr@),
        r.command@ == shown_command(program@, texts(args@)),
{
    let combined: String = owned(stdout).concat(stderr);
    CommandResult {
        code: match code {
            Some(c) => c,
            None => 1,
        },
        output: trimmed(combined.as_str()),
        command: printable_command(program, args),
    }
}

/// An exit code in words.
pub open spec fn exit_status(code: Option<i32>) -> Seq<char> {
    match code {
        Some(c) => if c < 0 {
            "-"@ + decimal((-c) as nat)
        } else {
            decimal(c as nat)
        },
        None => "terminated by system"@,
    }
}

/// An exit code in words.
pub fn exit_status_text(code: Option<i32>) -> (out: String)
    ensures
        out@ == exit_status(code),
{
    match code {
        Some(c) => if c < 0 {
            owned("-").concat(decimal_text((-(c as i64)) as u64).as_str())
        } else {
            decimal_text(c as u64)
        },
        None => owned("terminated by system"),
    }
}

/// The outcome of a command that installs something: its output, or why it failed.
pub fn run_dependency_command(
    printable: &str,
    success: bool,
    code: Option<i32>,
    stdout: &str,
    stderr: &str,
) -> (r: Result<String, String>)
    ensures
        match r {
            Ok(output) => success && output@ == trim(stdout@ + stderr@),
            Err(message) => !success && message@ == (if trim(stdout@ + stderr@).len() == 0 {
                "Command execution failed: "@ + printable@ + " (exit status: "@ + exit_status(code)
                    + ")"@
            } else {
                trim(stdout@ + stderr@)
            }),
        },
{
    let whole: String = owned(stdout).concat(stderr);
    let combined: String = trimmed(whole.as_str());
    if success {
        Ok(combined)
    } else if combined.as_str().is_empty() {
        let status: String = exit_status_text(code);
        Err(
            owned("Command execution failed: ").concat(printable).concat(" (exit status: ").concat(
                status.as_str(),
            ).concat(")"),
        )
    } else {
        Err(combined)
    }
}

/// The version that the user names as the latest one, where it is a version.
pub fn named_latest_version(named: Option<String>) -> (r: Option<String>)
    ensures
        opt_text(r) == (match named {
            Some(text) if version_of(text@).len() > 0 => Some(text@),
            _ => None,
        }),
{
    match named {
        Some(text) => {
            let numbers: Vec<u64> = numeric_version(text.as_str());
            if numbers.len() > 0 {
                Some(text)
            } else {
                None
            }
        },
        None => None,
    }
}

/// Why the metadata of the package could not be fetched.
pub open spec fn fetch_fault(code: Option<i32>, stderr: Seq<char>) -> Seq<char> {
    let message = "Failed to query AgentSeek latest version (curl exit status: "@ + exit_status(
        code,
    ) + ")"@;
    if trim(stderr).len() == 0 {
        message
    } else {
        message + "\u{ff1a}"@ + trim(stderr)
    }
}

/// The latest version by what the program that fetches the metadata of the package printed.
pub fn latest_agentseek_version(
    success: bool,
    code: Option<i32>,
    stdout: &[u8],
    stderr: &str,
) -> (r: Result<String, String>)
    ensures
        match r {
            Ok(version) => success && package_version(
                json_fault(stdout@),
                json_string(stdout@, "/info/version"@),
            ) == Ok::<Seq<char>, Seq<char>>(version@),
            Err(message) => if success {
                package_version(json_fault(stdout@), json_string(stdout@, "/info/version"@)) == Err::<
                    Seq<char>,
                    Seq<char>,
                >(message@)
            } else {
                message@ == fetch_fault(code, stderr@)
            },
        },
{
    if success {
        return parse_agentseek_package_version(stdout);
    }
    let status: String = exit_status_text(code);
    let message: String = owned(
        "Failed to query AgentSeek latest version (curl exit status: ",
    ).concat(status.as_str()).concat(")");
    let told: String = trimmed(stderr);
    if told.as_str().is_empty() {
        Err(message)
    } else {
        Err(message.concat("\u{ff1a}").concat(told.as_str()))
    }
}

// ---------------------------------------------------------------------------------------------
// Templates
// ---------------------------------------------------------------------------------------------
/// A word with another start in place of its first letter.
pub open spec fn with_start(word: Seq<char>, start: Seq<char>) -> Seq<char> {
    if word.len() == 0 {
        seq![]
    } else {
        start + word.skip(1)
    }
}

/// A word with another start in place of its first letter.
pub fn word_with_start(word: &str, start: &str) -> (out: String)
    ensures
        out@ == with_start(word@, start@),
{
    let s: Vec<char> = chars_of(word);
    if s.len() == 0 {
        return String::new();
    }
    let rest: String = text_of_range(&s, 1, s.len());
    proof {
        assert(rest@ =~= word@.skip(1));
    }
    owned(start).concat(rest.as_str())
}

/// A word with its first letter in upper case.
pub open spec fn capitalized(word: Seq<char>) -> Seq<char> {
    with_start(word, unicode_upper(word[0]))
}

fn capitalize(word: &str) -> (out: String)
    ensures
        out@ == capitalized(word@),
{
    let s: Vec<char> = chars_of(word);
    if s.len() == 0 {
        return String::new();
    }
    let start: String = to_unicode_upper(s[0]);
    word_with_start(word, start.as_str())
}

/// The words of the name of a template: those behind the last slash of its id.
pub open spec fn words_of_name(id: Seq<char>) -> Seq<Seq<char>> {
    runs(behind_last(id, "/"@), "-_"@)
}

/// The words of the name of a template.
pub fn template_words(template_id: &str) -> (out: Vec<String>)
    ensures
        texts(out@) == words_of_name(template_id@),
{
    let last: String = text_behind_last(template_id, "/");
    text_runs(last.as_str(), "-_")
}

/// The name of a template: its words, capitalized.
pub open spec fn template_name(id: Seq<char>) -> Seq<char> {
    join(words_of_name(id).map_values(|w: Seq<char>| capitalized(w)), " "@)
}

/// The name under which a template is shown.
pub fn display_name(template_id: &str) -> (out: String)
    ensures
        out@ == template_name(template_id@),
{
    let words: Vec<String> = template_words(template_id);
    let ghost all = texts(words@);
    let mut out: Vec<String> = Vec::new();
    let mut i: usize = 0;
    while i < words.len()
        invariant
            i <= words@.len(),
            out@.len() == i,
            forall|k: int| 0 <= k < i ==> (#[trigger] out@[k])@ == capitalized(words@[k]@),
        decreases words@.len() - i,
    {
        out.push(capitalize(words[i].as_str()));
        i += 1;
    }
    proof {
        assert(texts(out@) =~= all.map_values(|w: Seq<char>| capitalized(w)));
    }
    join_texts(&out, " ")
}

/// The templates of a list.
pub open spec fn template_views(list: Seq<TemplateInfo>) -> Seq<TemplateInfoView> {
    list.map_values(|t: TemplateInfo| t@)
}

/// A line with the id of a template: a framework and a name round one slash.
pub open spec fn template_line(t: Seq<char>) -> bool {
    contains(t, "/"@) && !contains(t, " "@) && !starts_with(t, "http"@) && split(t, "/"@).len()
        == 2
}

/// A line made of rules only.
pub open spec fn ruled_line(t: Seq<char>) -> bool {
    forall|i: int| 0 <= i < t.len() ==> #[trigger] t[i] == '─'
}

/// A line that describes a template.
pub open spec fn description_line(t: Seq<char>) -> bool {
    t.len() > 0 && !ruled_line(t) && !contains(t, "templates)"@)
}

/// How far a list of templates has been read; `open` tells that the last template waits for its
/// description.
#[verifier::ext_equal]
pub struct TemplateScan {
    pub templates: Seq<TemplateInfoView>,
    pub open: bool,
}

/// Reads the lines of a list of templates from the first to the last.
pub open spec fn template_scan(rows: Seq<Seq<char>>) -> TemplateScan
    decreases rows.len(),
{
    if rows.len() == 0 {
        TemplateScan { templates: seq![], open: false }
    } else {
        let scan = template_scan(rows.drop_last());
        let t = trim(rows.last());
        if template_line(t) {
            TemplateScan {
                templates: scan.templates.push(
                    TemplateInfoView {
                        id: t,
                        name: template_name(t),
                        description: seq![],
                        framework: before_first(t, "/"@),
                    },
                ),
                open: true,
            }
        } else if scan.open && scan.templates.len() > 0 && description_line(t) {
            TemplateScan {
                templates: scan.templates.update(
                    scan.templates.len() - 1,
                    TemplateInfoView { description: t, ..scan.templates.last() },
                ),
                open: false,
            }
        } else {
            scan
        }
    }
}

fn is_ruled_line(text: &str) -> (r: bool)
    ensures
        r == ruled_line(text@),
{
    let s: Vec<char> = chars_of(text);
    let mut i: usize = 0;
    while i < s.len()
        invariant
            i <= s@.len(),
            s@ == text@,
            forall|k: int| 0 <= k < i ==> #[trigger] s@[k] == '─',
        decreases s@.len() - i,
    {
        if s[i] != '─' {
            return false;
        }
        i += 1;
    }
    true
}

/// The templates in the output of `agentseek create --list-templates`.
pub fn parse_templates(output: &str) -> (out: Vec<TemplateInfo>)
    ensures
        template_views(out@) == template_scan(lines(output@)).templates,
{
    let rows: Vec<String> = text_lines(output);
    let ghost all = texts(rows@);
    let mut templates: Vec<TemplateInfo> = Vec::new();
    let mut open: bool = false;
    let mut i: usize = 0;
    proof {
        reveal_strlit("/");
        assert(all.take(0) =~= Seq::<Seq<char>>::empty());
        assert(template_views(templates@) =~= Seq::<TemplateInfoView>::empty());
    }
    while i < rows.len()
        invariant
            i <= rows@.len(),
            all == texts(rows@),
            "/"@.len() == 1,
            template_scan(all.take(i as int)) == (TemplateScan {
                templates: template_views(templates@),
                open,
            }),
        decreases rows@.len() - i,
    {
        let ghost before = template_views(templates@);
        proof {
            assert(all.take(i + 1).drop_last() =~= all.take(i as int));
            assert(all.take(i + 1).last() == rows@[i as int]@);
        }
        let t: String = trimmed(rows[i].as_str());
        let parts: Vec<String> = split_texts(t.as_str(), "/");
        if text_has(t.as_str(), "/") && !text_has(t.as_str(), " ") && !has_prefix(t.as_str(), "http")
            && parts.len() == 2 {
            let template: TemplateInfo = TemplateInfo {
                id: t.clone(),
                name: display_name(t.as_str()),
                description: String::new(),
                framework: text_before_first(t.as_str(), "/"),
            };
            let ghost added = template@;
            templates.push(template);
            open = true;
            proof {
                assert(added =~= TemplateInfoView {
                    id: t@,
                    name: template_name(t@),
                    description: seq![],
                    framework: before_first(t@, "/"@),
                });
                assert(template_views(templates@) =~= before.push(added));
            }
        } else if open && templates.len() > 0 && !t.as_str().is_empty() && !is_ruled_line(
            t.as_str(),
        ) && !text_has(t.as_str(), "templates)") {
            let last: usize = templates.len() - 1;
            let template: TemplateInfo = TemplateInfo {
                id: templates[last].id.clone(),
                name: templates[last].name.clone(),
                description: t,
                framework: templates[last].framework.clone(),
            };
            let ghost described = template@;
            templates.set(last, template);
            open = false;
            proof {
                assert(described =~= TemplateInfoView { description: t@, ..before.last() });
                assert(template_views(templates@) =~= before.update(last as int, described));
            }
        }
        i += 1;
    }
    proof {
        assert(all.take(i as int) =~= all);
    }
    templates
}

} // verus!
