//! Scripts that install the tools.
use vstd::prelude::*;
use vstd::string::*;

use crate::json::{json_string, json_string_at};
use crate::number::{all_digits, decimal};
use crate::paths::{join_path, path_below};
use crate::search::{ends_with, trim, trim_end_of, trimmed, trimmed_end_of, without_suffix};
use crate::split::{lines, replace_all, replaced, text_lines};
use crate::text::{chars_of, is_digit, join, join_texts, opt_text, owned, same, texts};
use crate::tools::{
    needed_tools, node_major, node_major_text, nvm_address, nvm_installer,
    required_runtime_dependencies, CliStatus, RuntimeRequirements,
};
use crate::versions::{at_least, meets_requirement, version_of};

verus! {

// ---------------------------------------------------------------------------------------------
// Quoting
// ---------------------------------------------------------------------------------------------
/// A value as one word of a POSIX shell: between single quotes, with each single quote inside set
/// between double quotes.
pub open spec fn shell_word(value: Seq<char>) -> Seq<char> {
    "'"@ + replace_all(value, "'"@, "'\"'\"'"@) + "'"@
}

/// A value as one word of a POSIX shell.
pub fn shell_quote(value: &str) -> (out: String)
    ensures
        out@ == shell_word(value@),
{
    proof {
        reveal_strlit("'");
    }
    let inner: String = replaced(value, "'", "'\"'\"'");
    owned("'").concat(inner.as_str()).concat("'")
}

/// A value as a literal string of PowerShell: between single quotes, with each single quote inside
/// doubled.
pub open spec fn powershell_word(value: Seq<char>) -> Seq<char> {
    "'"@ + replace_all(value, "'"@, "''"@) + "'"@
}

/// A value as a literal string of PowerShell.
pub fn powershell_quote(value: &str) -> (out: String)
    ensures
        out@ == powershell_word(value@),
{
    proof {
        reveal_strlit("'");
    }
    let inner: String = replaced(value, "'", "''");
    owned("'").concat(inner.as_str()).concat("'")
}

// ---------------------------------------------------------------------------------------------
// Lines
// ---------------------------------------------------------------------------------------------
fn push_line(rows: &mut Vec<String>, line: &str)
    ensures
        texts(final(rows)@) == texts(old(rows)@).push(line@),
{
    rows.push(owned(line));
    proof {
        assert(texts(rows@) =~= texts(old(rows)@).push(line@));
    }
}

fn push_block(rows: &mut Vec<String>, block: &str)
    ensures
        texts(final(rows)@) == texts(old(rows)@) + lines(block@),
{
    let mut added: Vec<String> = text_lines(block);
    let ghost new_rows = added@;
    rows.append(&mut added);
    proof {
        assert(texts(rows@) =~= texts(old(rows)@) + texts(new_rows));
    }
}

/// The first lines of the script for a POSIX shell.
pub const POSIX_START: &'static str = r#"#!/usr/bin/env bash
set -eo pipefail"#;

/// What the script for a POSIX shell sets up before it installs anything: its status file, its log and
/// a function that fetches and runs an installer.
pub const POSIX_PRELUDE: &'static str = r#"mkdir -p "$(dirname "$STATUS_FILE")"
: > "$LOG_FILE"
STAGE=starting
printf '%s\n' '{"status":"running","stage":"starting"}' > "$STATUS_FILE"
exec > >(tee -a "$LOG_FILE") 2>&1
on_exit() {
  code=$?
  if [ "$code" -ne 0 ]; then
    printf '{"status":"failed","stage":"%s","code":%s}\n' "$STAGE" "$code" > "$STATUS_FILE"
    printf '\nInstallation failed. Press Enter to close this terminal.\n'
    read -r _ || true
  fi
}
trap on_exit EXIT
export PATH="$HOME/.local/bin:$HOME/.cargo/bin:/opt/homebrew/bin:/usr/local/bin:/usr/bin:/bin:$PATH"
run_shell_installer() {
  url=$1
  label=$2
  installer_file="$TASK_DIR/${label}-installer.sh"
  attempt=1
  while [ "$attempt" -le 3 ]; do
    echo "Installing $label (attempt $attempt/3)"
    rm -f "$installer_file" "$installer_file.tmp"
    if command -v curl >/dev/null 2>&1; then
      curl -fL --silent --show-error --connect-timeout 10 --max-time 60 --retry 1 --retry-all-errors --retry-delay 2 --output "$installer_file.tmp" "$url" || true
    elif command -v wget >/dev/null 2>&1; then
      wget -qO "$installer_file.tmp" --timeout=30 --tries=3 --waitretry=2 "$url" || true
    else
      echo "Neither curl nor wget is available; cannot install $label." >&2; return 1
    fi
    if [ -s "$installer_file.tmp" ] && [ "$(wc -c < "$installer_file.tmp")" -ge 1024 ] && bash -n "$installer_file.tmp"; then
      mv "$installer_file.tmp" "$installer_file"
      if bash "$installer_file"; then return 0; fi
    else
      echo "Downloaded $label installer is incomplete or invalid; it will not be executed." >&2
    fi
    rm -f "$installer_file" "$installer_file.tmp"
    if [ "$attempt" -lt 3 ]; then echo "$label download failed. Retrying in 3 seconds."; sleep 3; fi
    attempt=$((attempt + 1))
  done
  return 1
}
echo 'AgentSeek Desktop runtime installation'
echo '================================='"#;

/// The start of the stage that installs uv.
pub const POSIX_UV: &'static str = r#"STAGE=uv
printf '%s\n' '{"status":"running","stage":"uv"}' > "$STATUS_FILE"
echo '[1/3] Install or upgrade uv'"#;

/// The start of the stage that installs Node.js.
pub const POSIX_NODE: &'static str = r#"STAGE=node
printf '%s\n' '{"status":"running","stage":"node"}' > "$STATUS_FILE"
echo '[2/3] Install AgentSeek Desktop private Node.js / npm'
unset npm_config_prefix"#;

/// The lines that make the directory of nvm.
pub const POSIX_NVM_DIR: &'static str = r#"export PROFILE=/dev/null
mkdir -p "$NVM_DIR""#;

/// The lines that load nvm and choose where it fetches Node.js from.
pub const POSIX_NVM: &'static str = r#". "$NVM_DIR/nvm.sh"
if curl -fsI --connect-timeout 2 --max-time 3 "https://cdn.npmmirror.com/binaries/node/v24.18.0/SHASUMS256.txt" > /dev/null 2>&1; then export NVM_NODEJS_ORG_MIRROR=https://cdn.npmmirror.com/binaries/node; fi"#;

/// The lines that show which versions were installed.
pub const POSIX_NODE_CHECK: &'static str = r#"node --version
npm --version"#;

/// The stage that installs the AgentSeek tool.
pub const POSIX_CLI: &'static str = r#"STAGE=agentseek
printf '%s\n' '{"status":"running","stage":"agentseek"}' > "$STATUS_FILE"
echo '[3/3] Install or upgrade AgentSeek CLI'
if [ ! -x "${UV_BIN:-}" ]; then UV_BIN="$(command -v uv)"; fi
"$UV_BIN" tool install --upgrade agentseek
"$UV_BIN" tool update-shell
AGENTSEEK_BIN="$HOME/.local/bin/agentseek"
if [ ! -x "$AGENTSEEK_BIN" ]; then AGENTSEEK_BIN="$(command -v agentseek)"; fi
"$AGENTSEEK_BIN" version"#;

/// The last lines of the script for a POSIX shell.
pub const POSIX_END: &'static str = r#"STAGE=complete
printf '%s\n' '{"status":"success","stage":"complete","code":0}' > "$STATUS_FILE"
trap - EXIT
kill 0"#;

/// What the script for PowerShell sets up before it installs anything.
pub const WINDOWS_PRELUDE: &'static str = r#"New-Item -ItemType Directory -Force -Path (Split-Path $StatusFile) | Out-Null
$Stage = 'starting'
'{"status":"running","stage":"starting"}' | Set-Content -Encoding UTF8 $StatusFile
Start-Transcript -Path $LogFile -Force
function Invoke-DownloadWithRetry {
  param([string]$Uri, [string]$OutFile, [string]$Label)
  for ($Attempt = 1; $Attempt -le 6; $Attempt++) {
    try {
      Write-Host "Downloading $Label (attempt $Attempt/6)"
      Invoke-WebRequest -UseBasicParsing -Uri $Uri -OutFile $OutFile
      return
    } catch {
      if ($Attempt -eq 6) { throw }
      Write-Host 'Download failed. If security software prompts, allow the download. Retrying in 10 seconds.'
      Start-Sleep -Seconds 10
    }
  }
}
try {
  Write-Host 'AgentSeek Desktop runtime installation'"#;

/// The lines that name the files of the stage that installs Node.js.
pub const WINDOWS_NODE_FILES: &'static str = r#"  $Archive = Join-Path $env:TEMP $ArchiveName
  $Checksums = Join-Path $env:TEMP 'agentseek-node-SHASUMS256.txt'
  $ExtractDir = Join-Path $env:TEMP ('agentseek-node-' + [guid]::NewGuid())"#;

/// The lines that verify and unpack Node.js.
pub const WINDOWS_NODE_VERIFY: &'static str = r#"  $Line = Get-Content $Checksums | Where-Object { $_ -match ('\s+' + [regex]::Escape($ArchiveName) + '$') } | Select-Object -First 1
  if (-not $Line) { throw 'Node.js SHA-256 entry was not found' }
  $Expected = ($Line.Trim() -split '\s+')[0].ToLowerInvariant()
  $Actual = (Get-FileHash -Algorithm SHA256 $Archive).Hash.ToLowerInvariant()
  if ($Expected -ne $Actual) { throw 'Node.js SHA-256 verification failed' }
  Expand-Archive -Path $Archive -DestinationPath $ExtractDir -Force"#;

/// The lines that put Node.js in its place.
pub const WINDOWS_NODE_MOVE: &'static str = r#"  if (Test-Path $NodeRoot) { Remove-Item -Recurse -Force $NodeRoot }
  New-Item -ItemType Directory -Force -Path (Split-Path $NodeRoot) | Out-Null
  Move-Item (Join-Path $ExtractDir ($ArchiveName -replace '\.zip$','')) $NodeRoot"#;

/// The end of the stage that installs Node.js.
pub const WINDOWS_NODE_END: &'static str = r#"  if ($LASTEXITCODE -ne 0) { throw "npm installation failed with exit code $LASTEXITCODE" }
  Remove-Item -Force $Archive,$Checksums
  Remove-Item -Recurse -Force $ExtractDir"#;

/// The stage that installs the AgentSeek tool.
pub const WINDOWS_CLI: &'static str = r#"  $Stage = 'agentseek'; ('{"status":"running","stage":"agentseek"}') | Set-Content -Encoding UTF8 $StatusFile
  if (-not (Test-Path $UvBin)) { $UvBin = (Get-Command uv).Source }
  & $UvBin tool install --upgrade agentseek
  if ($LASTEXITCODE -ne 0) { throw "AgentSeek CLI installation failed with exit code $LASTEXITCODE" }
  & $UvBin tool update-shell
  if ($LASTEXITCODE -ne 0) { throw "uv tool update-shell failed with exit code $LASTEXITCODE" }"#;

/// The last lines of the script for PowerShell.
pub const WINDOWS_END: &'static str = r#"  $Stage = 'complete'; '{"status":"success","stage":"complete","code":0}' | Set-Content -Encoding UTF8 $StatusFile
} catch {
  $Message = $_.Exception.Message.Replace('\','\\').Replace('"','\"')
  ('{"status":"failed","stage":"' + $Stage + '","code":1,"message":"' + $Message + '"}') | Set-Content -Encoding UTF8 $StatusFile
  Write-Error $_
} finally {
  Stop-Transcript
}"#;

// ---------------------------------------------------------------------------------------------
// The script for a POSIX shell
// ---------------------------------------------------------------------------------------------
/// The lines that install uv, where it has to be installed.
pub open spec fn posix_uv_lines(r: RuntimeRequirements, s: CliStatus) -> Seq<Seq<char>> {
    if !s.uv_compatible {
        lines(POSIX_UV@).push(
            "run_shell_installer "@ + shell_word(r.sources.uv_installer@) + " uv"@,
        ).push("UV_BIN=\"$HOME/.local/bin/uv\""@)
    } else {
        seq!["UV_BIN="@ + shell_word(s.uv_path@), "echo '[1/3] uv already meets the requirement; skipping'"@]
    }
}

/// The line that installs nvm, with two mirrors to fall back on.
pub open spec fn nvm_line(r: RuntimeRequirements) -> Seq<char> {
    "if [ ! -s \"$NVM_DIR/nvm.sh\" ]; then run_shell_installer "@ + shell_word(nvm_address(r)) + " nvm || run_shell_installer "@
        + shell_word(
        "https://gitee.com/mirrors/nvm/raw/v"@ + r.versions.nvm.managed@ + "/install.sh"@,
    ) + " nvm || run_shell_installer "@ + shell_word("https://ghproxy.net/"@ + nvm_address(r)) + " nvm; fi"@
}

/// The lines that install Node.js for the application alone, where it has to be installed.
pub open spec fn posix_node_lines(
    r: RuntimeRequirements,
    s: CliStatus,
    runtime_root: Seq<char>,
    separator: char,
) -> Seq<Seq<char>> {
    if !s.node_compatible || !s.npm_compatible {
        (lines(POSIX_NODE@).push(
            "export NVM_DIR="@ + shell_word(join_path(separator, runtime_root, "nvm"@)),
        ) + lines(POSIX_NVM_DIR@)).push(nvm_line(r)) + lines(POSIX_NVM@).push(
            "nvm install "@ + decimal(node_major(r)),
        ) + lines(POSIX_NODE_CHECK@)
    } else {
        seq!["echo '[2/3] Node.js / npm already meet the requirements; skipping'"@]
    }
}

/// The lines that install the AgentSeek tool, where it has to be installed or upgraded.
pub open spec fn posix_cli_lines(s: CliStatus) -> Seq<Seq<char>> {
    if !s.cli_compatible || s.cli_update_available {
        lines(POSIX_CLI@)
    } else {
        seq!["echo '[3/3] AgentSeek CLI already meets the requirement; skipping'"@]
    }
}

/// The lines of the script for a POSIX shell.
pub open spec fn posix_lines(
    r: RuntimeRequirements,
    s: CliStatus,
    task_dir: Seq<char>,
    runtime_root: Seq<char>,
    separator: char,
) -> Seq<Seq<char>> {
    let start = lines(POSIX_START@).push(
        "STATUS_FILE="@ + shell_word(join_path(separator, task_dir, "status.json"@)),
    ).push("LOG_FILE="@ + shell_word(join_path(separator, task_dir, "install.log"@))).push(
        "TASK_DIR="@ + shell_word(task_dir),
    );
    ((((start + lines(POSIX_PRELUDE@)) + posix_uv_lines(r, s)) + posix_node_lines(
        r,
        s,
        runtime_root,
        separator,
    )) + posix_cli_lines(s) + lines(POSIX_END@)).push(""@)
}

fn posix_uv_rows(requirements: &RuntimeRequirements, status: &CliStatus, rows: &mut Vec<String>)
    ensures
        texts(final(rows)@) == texts(old(rows)@) + posix_uv_lines(*requirements, *status),
{
    if !status.uv_compatible {
        push_block(rows, POSIX_UV);
        let quoted: String = shell_quote(requirements.sources.uv_installer.as_str());
        let line: String = owned("run_shell_installer ").concat(quoted.as_str()).concat(" uv");
        push_line(rows, line.as_str());
        push_line(rows, "UV_BIN=\"$HOME/.local/bin/uv\"");
    } else {
        let quoted: String = shell_quote(status.uv_path.as_str());
        let line: String = owned("UV_BIN=").concat(quoted.as_str());
        push_line(rows, line.as_str());
        push_line(rows, "echo '[1/3] uv already meets the requirement; skipping'");
    }
    proof {
        assert(texts(rows@) =~= texts(old(rows)@) + posix_uv_lines(*requirements, *status));
    }
}

fn posix_node_rows(
    requirements: &RuntimeRequirements,
    status: &CliStatus,
    runtime_root: &str,
    rows: &mut Vec<String>,
    separator: char,
)
    ensures
        texts(final(rows)@) == texts(old(rows)@) + posix_node_lines(
            *requirements,
            *status,
            runtime_root@,
            separator,
        ),
{
    if !status.node_compatible || !status.npm_compatible {
        push_block(rows, POSIX_NODE);
        let nvm_dir: String = path_below(separator, runtime_root, "nvm");
        let export: String = owned("export NVM_DIR=").concat(shell_quote(nvm_dir.as_str()).as_str());
        push_line(rows, export.as_str());
        push_block(rows, POSIX_NVM_DIR);
        let address: String = nvm_installer(requirements);
        let gitee: String = owned("https://gitee.com/mirrors/nvm/raw/v").concat(
            requirements.versions.nvm.managed.as_str(),
        ).concat("/install.sh");
        let proxy: String = owned("https://ghproxy.net/").concat(address.as_str());
        let mut line: String = owned("if [ ! -s \"$NVM_DIR/nvm.sh\" ]; then run_shell_installer ");
        line.append(shell_quote(address.as_str()).as_str());
        line.append(" nvm || run_shell_installer ");
        line.append(shell_quote(gitee.as_str()).as_str());
        line.append(" nvm || run_shell_installer ");
        line.append(shell_quote(proxy.as_str()).as_str());
        line.append(" nvm; fi");
        push_line(rows, line.as_str());
        push_block(rows, POSIX_NVM);
        let install: String = owned("nvm install ").concat(node_major_text(requirements).as_str());
        push_line(rows, install.as_str());
        push_block(rows, POSIX_NODE_CHECK);
    } else {
        push_line(rows, "echo '[2/3] Node.js / npm already meet the requirements; skipping'");
    }
    proof {
        assert(texts(rows@) =~= texts(old(rows)@) + posix_node_lines(
            *requirements,
            *status,
            runtime_root@,
            separator,
        ));
    }
}

/// The script that installs what is missing on a machine with a POSIX shell. An installation of uv
/// that the machine has is left as it is.
pub fn posix_runtime_install_script(
    requirements: &RuntimeRequirements,
    status: &CliStatus,
    task_dir: &str,
    runtime_root: &str,
    separator: char,
) -> (out: String)
    ensures
        out@ == join(
            posix_lines(*requirements, *status, task_dir@, runtime_root@, separator),
            "\n"@,
        ),
{
    let mut rows: Vec<String> = text_lines(POSIX_START);
    let status_file: String = path_below(separator, task_dir, "status.json");
    let log_file: String = path_below(separator, task_dir, "install.log");
    let status_line: String = owned("STATUS_FILE=").concat(
        shell_quote(status_file.as_str()).as_str(),
    );
    let log_line: String = owned("LOG_FILE=").concat(shell_quote(log_file.as_str()).as_str());
    let task_line: String = owned("TASK_DIR=").concat(shell_quote(task_dir).as_str());
    push_line(&mut rows, status_line.as_str());
    push_line(&mut rows, log_line.as_str());
    push_line(&mut rows, task_line.as_str());
    push_block(&mut rows, POSIX_PRELUDE);
    posix_uv_rows(requirements, status, &mut rows);
    posix_node_rows(requirements, status, runtime_root, &mut rows, separator);
    let ghost before = texts(rows@);
    if !status.cli_compatible || status.cli_update_available {
        push_block(&mut rows, POSIX_CLI);
    } else {
        push_line(&mut rows, "echo '[3/3] AgentSeek CLI already meets the requirement; skipping'");
    }
    proof {
        assert(texts(rows@) =~= before + posix_cli_lines(*status));
    }
    push_block(&mut rows, POSIX_END);
    push_line(&mut rows, "");
    join_texts(&rows, "\n")
}

// ---------------------------------------------------------------------------------------------
// The script for PowerShell
// ---------------------------------------------------------------------------------------------
/// The address of the installer of uv for Windows: its own, or the general one for PowerShell.
pub open spec fn windows_uv_address(r: RuntimeRequirements) -> Seq<char> {
    let general = r.sources.uv_installer@;
    match r.sources.uv_installer_windows {
        Some(value) => value@,
        None => if ends_with(general, ".sh"@) {
            general.take(general.len() - ".sh"@.len()) + ".ps1"@
        } else {
            general
        },
    }
}

/// The address of the installer of uv for Windows.
pub fn windows_uv_installer(requirements: &RuntimeRequirements) -> (out: String)
    ensures
        out@ == windows_uv_address(*requirements),
{
    match &requirements.sources.uv_installer_windows {
        Some(value) => value.clone(),
        None => match without_suffix(requirements.sources.uv_installer.as_str(), ".sh") {
            Some(rest) => rest.concat(".ps1"),
            None => requirements.sources.uv_installer.clone(),
        },
    }
}

/// The architecture in the names of Node.js archives for Windows.
pub open spec fn windows_architecture(arm: bool) -> Seq<char> {
    if arm {
        "win-arm64"@
    } else {
        "win-x64"@
    }
}

/// The name of a Node.js archive for Windows, without its extension.
pub open spec fn node_folder(r: RuntimeRequirements, arm: bool) -> Seq<char> {
    "node-v"@ + r.versions.node.managed@ + "-"@ + windows_architecture(arm)
}

/// The address of the directory of a version of Node.js.
pub open spec fn node_directory(r: RuntimeRequirements) -> Seq<char> {
    trim_end_of(r.sources.node_distribution@, "/"@) + "/v"@ + r.versions.node.managed@ + "/"@
}

/// The lines that install uv, where it has to be installed.
pub open spec fn windows_uv_lines(r: RuntimeRequirements, s: CliStatus) -> Seq<Seq<char>> {
    if !s.uv_compatible {
        seq![
            "  $Stage = 'uv'; ('{\"status\":\"running\",\"stage\":\"uv\"}') | Set-Content -Encoding UTF8 $StatusFile"@,
            if s.uv_available && s.uv_path@.len() > 0 {
                "  Write-Host 'An outdated uv was found. The required version will be installed in the current user tool directory without changing the system installation.'"@
            } else {
                "  Write-Host 'uv was not found; starting installation.'"@
            },
            "  $UvInstaller = Join-Path $TaskDir 'uv-install.ps1'"@,
            "  Invoke-DownloadWithRetry -Uri "@ + powershell_word(windows_uv_address(r))
                + " -OutFile $UvInstaller -Label 'official uv installer'"@,
            "  & $UvInstaller"@,
            "  $UvBin = Join-Path $HOME '.local\\bin\\uv.exe'"@,
        ]
    } else {
        seq!["  $UvBin = "@ + powershell_word(s.uv_path@)]
    }
}

/// The lines that install Node.js for the application alone, where it has to be installed.
pub open spec fn windows_node_lines(
    r: RuntimeRequirements,
    s: CliStatus,
    runtime_root: Seq<char>,
    arm: bool,
    separator: char,
) -> Seq<Seq<char>> {
    if !s.node_compatible || !s.npm_compatible {
        let archive = node_folder(r, arm) + ".zip"@;
        seq!["  $Stage = 'node'; ('{\"status\":\"running\",\"stage\":\"node\"}') | Set-Content -Encoding UTF8 $StatusFile"@, "  $ArchiveName = "@ + powershell_word(archive)] + lines(
            WINDOWS_NODE_FILES@,
        ) + seq![
            "  Invoke-DownloadWithRetry -Uri "@ + powershell_word(node_directory(r) + archive)
                + " -OutFile $Archive -Label 'Node.js ZIP'"@,
            "  Invoke-DownloadWithRetry -Uri "@ + powershell_word(
                node_directory(r) + "SHASUMS256.txt"@,
            ) + " -OutFile $Checksums -Label 'Node.js SHA-256 manifest'"@,
        ] + lines(WINDOWS_NODE_VERIFY@) + seq![
            "  $NodeRoot = "@ + powershell_word(
                join_path(separator, runtime_root, node_folder(r, arm)),
            ),
        ] + lines(WINDOWS_NODE_MOVE@) + seq![
            "  & (Join-Path $NodeRoot 'npm.cmd') install -g npm@"@ + r.versions.npm.managed@,
        ] + lines(WINDOWS_NODE_END@)
    } else {
        seq![]
    }
}

/// The lines of the script for PowerShell.
pub open spec fn windows_lines(
    r: RuntimeRequirements,
    s: CliStatus,
    task_dir: Seq<char>,
    runtime_root: Seq<char>,
    arm: bool,
    separator: char,
) -> Seq<Seq<char>> {
    let start = seq![
        "$ErrorActionPreference = 'Stop'"@,
        "$StatusFile = "@ + powershell_word(join_path(separator, task_dir, "status.json"@)),
        "$LogFile = "@ + powershell_word(join_path(separator, task_dir, "install.log"@)),
        "$TaskDir = "@ + powershell_word(task_dir),
    ];
    let cli = if !s.cli_compatible || s.cli_update_available {
        lines(WINDOWS_CLI@)
    } else {
        seq![]
    };
    (start + lines(WINDOWS_PRELUDE@) + windows_uv_lines(r, s) + windows_node_lines(
        r,
        s,
        runtime_root,
        arm,
        separator,
    ) + cli + lines(WINDOWS_END@)).push(""@)
}

fn windows_uv_rows(requirements: &RuntimeRequirements, status: &CliStatus, rows: &mut Vec<String>)
    ensures
        texts(final(rows)@) == texts(old(rows)@) + windows_uv_lines(*requirements, *status),
{
    if !status.uv_compatible {
        push_line(rows, "  $Stage = 'uv'; ('{\"status\":\"running\",\"stage\":\"uv\"}') | Set-Content -Encoding UTF8 $StatusFile");
        if status.uv_available && !status.uv_path.as_str().is_empty() {
            push_line(rows, "  Write-Host 'An outdated uv was found. The required version will be installed in the current user tool directory without changing the system installation.'");
        } else {
            push_line(rows, "  Write-Host 'uv was not found; starting installation.'");
        }
        push_line(rows, "  $UvInstaller = Join-Path $TaskDir 'uv-install.ps1'");
        let address: String = windows_uv_installer(requirements);
        let fetch: String = owned("  Invoke-DownloadWithRetry -Uri ").concat(
            powershell_quote(address.as_str()).as_str(),
        ).concat(" -OutFile $UvInstaller -Label 'official uv installer'");
        push_line(rows, fetch.as_str());
        push_line(rows, "  & $UvInstaller");
        push_line(rows, "  $UvBin = Join-Path $HOME '.local\\bin\\uv.exe'");
    } else {
        let line: String = owned("  $UvBin = ").concat(
            powershell_quote(status.uv_path.as_str()).as_str(),
        );
        push_line(rows, line.as_str());
    }
    proof {
        assert(texts(rows@) =~= texts(old(rows)@) + windows_uv_lines(*requirements, *status));
    }
}

fn windows_node_rows(
    requirements: &RuntimeRequirements,
    status: &CliStatus,
    runtime_root: &str,
    arm: bool,
    rows: &mut Vec<String>,
    separator: char,
)
    ensures
        texts(final(rows)@) == texts(old(rows)@) + windows_node_lines(
            *requirements,
            *status,
            runtime_root@,
            arm,
            separator,
        ),
{
    if !status.node_compatible || !status.npm_compatible {
        let managed: &str = requirements.versions.node.managed.as_str();
        let folder: String = owned("node-v").concat(managed).concat("-").concat(
            if arm {
                "win-arm64"
            } else {
                "win-x64"
            },
        );
        let archive: String = owned(folder.as_str()).concat(".zip");
        let directory: String = trimmed_end_of(
            requirements.sources.node_distribution.as_str(),
            "/",
        ).concat("/v").concat(managed).concat("/");
        let archive_address: String = owned(directory.as_str()).concat(archive.as_str());
        let sums_address: String = owned(directory.as_str()).concat("SHASUMS256.txt");
        let node_root: String = path_below(separator, runtime_root, folder.as_str());
        push_line(rows, "  $Stage = 'node'; ('{\"status\":\"running\",\"stage\":\"node\"}') | Set-Content -Encoding UTF8 $StatusFile");
        let name_line: String = owned("  $ArchiveName = ").concat(
            powershell_quote(archive.as_str()).as_str(),
        );
        push_line(rows, name_line.as_str());
        push_block(rows, WINDOWS_NODE_FILES);
        let fetch: String = owned("  Invoke-DownloadWithRetry -Uri ").concat(
            powershell_quote(archive_address.as_str()).as_str(),
        ).concat(" -OutFile $Archive -Label 'Node.js ZIP'");
        push_line(rows, fetch.as_str());
        let sums: String = owned("  Invoke-DownloadWithRetry -Uri ").concat(
            powershell_quote(sums_address.as_str()).as_str(),
        ).concat(" -OutFile $Checksums -Label 'Node.js SHA-256 manifest'");
        push_line(rows, sums.as_str());
        push_block(rows, WINDOWS_NODE_VERIFY);
        let root_line: String = owned("  $NodeRoot = ").concat(
            powershell_quote(node_root.as_str()).as_str(),
        );
        push_line(rows, root_line.as_str());
        push_block(rows, WINDOWS_NODE_MOVE);
        let npm: String = owned("  & (Join-Path $NodeRoot 'npm.cmd') install -g npm@").concat(
            requirements.versions.npm.managed.as_str(),
        );
        push_line(rows, npm.as_str());
        push_block(rows, WINDOWS_NODE_END);
    }
    proof {
        assert(texts(rows@) =~= texts(old(rows)@) + windows_node_lines(
            *requirements,
            *status,
            runtime_root@,
            arm,
            separator,
        ));
    }
}

/// The script that installs what is missing on a machine with PowerShell.
pub fn windows_runtime_install_script(
    requirements: &RuntimeRequirements,
    status: &CliStatus,
    task_dir: &str,
    runtime_root: &str,
    arm: bool,
    separator: char,
) -> (out: String)
    ensures
        out@ == join(
            windows_lines(*requirements, *status, task_dir@, runtime_root@, arm, separator),
            "\r\n"@,
        ),
{
    let mut rows: Vec<String> = Vec::new();
    push_line(&mut rows, "$ErrorActionPreference = 'Stop'");
    let status_file: String = path_below(separator, task_dir, "status.json");
    let log_file: String = path_below(separator, task_dir, "install.log");
    let status_line: String = owned("$StatusFile = ").concat(
        powershell_quote(status_file.as_str()).as_str(),
    );
    let log_line: String = owned("$LogFile = ").concat(
        powershell_quote(log_file.as_str()).as_str(),
    );
    let task_line: String = owned("$TaskDir = ").concat(powershell_quote(task_dir).as_str());
    push_line(&mut rows, status_line.as_str());
    push_line(&mut rows, log_line.as_str());
    push_line(&mut rows, task_line.as_str());
    proof {
        assert(texts(rows@) =~= seq![
            "$ErrorActionPreference = 'Stop'"@,
            status_line@,
            log_line@,
            task_line@,
        ]);
    }
    push_block(&mut rows, WINDOWS_PRELUDE);
    windows_uv_rows(requirements, status, &mut rows);
    windows_node_rows(requirements, status, runtime_root, arm, &mut rows, separator);
    let ghost before = texts(rows@);
    if !status.cli_compatible || status.cli_update_available {
        push_block(&mut rows, WINDOWS_CLI);
    } else {
        proof {
            assert(before + Seq::<Seq<char>>::empty() =~= before);
        }
    }
    push_block(&mut rows, WINDOWS_END);
    push_line(&mut rows, "");
    join_texts(&rows, "\r\n")
}

// ---------------------------------------------------------------------------------------------
// Running a script
// ---------------------------------------------------------------------------------------------
/// What an installation is for: the tools that it installs, and the version that the AgentSeek tool
/// has to reach where it is upgraded.
#[derive(Debug)]
pub struct InstallGoal {
    pub dependencies: Vec<String>,
    pub upgrade_target: Option<String>,
}

/// Refuses an installation where nothing has to be installed, or an upgrade where none is at hand.
pub fn plan_installation(status: &CliStatus, force_agentseek_upgrade: bool) -> (r: Result<
    InstallGoal,
    String,
>)
    ensures
        match r {
            Ok(goal) => (force_agentseek_upgrade ==> status.cli_update_available
                && status.cli_latest_version@.len() > 0) && needed_tools(*status).len() > 0 && texts(
                goal.dependencies@,
            ) == needed_tools(*status) && opt_text(goal.upgrade_target) == (
            if status.cli_update_available {
                Some(status.cli_latest_version@)
            } else {
                None
            }),
            Err(message) => if force_agentseek_upgrade && (!status.cli_update_available
                || status.cli_latest_version@.len() == 0) {
                message@ == "AgentSeek CLI is already up to date"@
            } else {
                needed_tools(*status).len() == 0 && message@
                    == "Current runtime environment already meets requirements"@
            },
        },
{
    if force_agentseek_upgrade && (!status.cli_update_available
        || status.cli_latest_version.as_str().is_empty()) {
        return Err(owned("AgentSeek CLI is already up to date"));
    }
    let upgrade_target: Option<String> = if status.cli_update_available {
        Some(status.cli_latest_version.clone())
    } else {
        None
    };
    let dependencies: Vec<String> = required_runtime_dependencies(status);
    proof {
        assert(texts(dependencies@).len() == dependencies@.len());
    }
    if dependencies.len() == 0 {
        return Err(owned("Current runtime environment already meets requirements"));
    }
    Ok(InstallGoal { dependencies, upgrade_target })
}

/// The directory of an installation, by its number.
pub fn runtime_install_task_dir(
    data_dir: &str,
    task_id: &str,
    separator: char,
) -> (r: Result<String, String>)
    ensures
        match r {
            Ok(path) => task_id@.len() > 0 && all_digits(task_id@) && path@ == join_path(
                separator,
                join_path(separator, data_dir@, "runtime-install"@),
                task_id@,
            ),
            Err(message) => !(task_id@.len() > 0 && all_digits(task_id@)) && message@
                == "Invalid install task ID"@,
        },
{
    let s: Vec<char> = chars_of(task_id);
    if s.len() == 0 {
        return Err(owned("Invalid install task ID"));
    }
    let mut i: usize = 0;
    while i < s.len()
        invariant
            i <= s@.len(),
            s@ == task_id@,
            forall|k: int| 0 <= k < i ==> is_digit(#[trigger] s@[k]),
        decreases s@.len() - i,
    {
        if !('0' <= s[i] && s[i] <= '9') {
            return Err(owned("Invalid install task ID"));
        }
        i += 1;
    }
    let base: String = path_below(separator, data_dir, "runtime-install");
    Ok(path_below(separator, base.as_str(), task_id))
}

/// A text, or another where there is none.
pub open spec fn or_text(t: Option<Seq<char>>, otherwise: Seq<char>) -> Seq<char> {
    match t {
        Some(s) => s,
        None => otherwise,
    }
}

fn text_or(t: Option<String>, otherwise: &str) -> (out: String)
    ensures
        out@ == or_text(opt_text(t), otherwise@),
{
    match t {
        Some(s) => s,
        None => owned(otherwise),
    }
}

/// The state and the stage of an installation, by what its status file holds of them.
pub fn progress_of(status: Option<String>, stage: Option<String>) -> (r: (String, String))
    ensures
        r.0@ == or_text(opt_text(status), "pending"@),
        r.1@ == or_text(opt_text(stage), "pending"@),
{
    (text_or(status, "pending"), text_or(stage, "pending"))
}

/// The state and the stage of an installation, as its status file tells them. Without a file that
/// can be read the installation is pending.
pub fn installation_progress(status_file: Option<&str>) -> (r: (String, String))
    ensures
        match status_file {
            Some(content) => r.0@ == or_text(
                json_string(vstd::utf8::encode_utf8(trim(content@)), "/status"@),
                "pending"@,
            ) && r.1@ == or_text(
                json_string(vstd::utf8::encode_utf8(trim(content@)), "/stage"@),
                "pending"@,
            ),
            None => r.0@ == "pending"@ && r.1@ == "pending"@,
        },
{
    match status_file {
        Some(content) => {
            let body_text: String = trimmed(content);
            let body: &str = body_text.as_str();
            let state: Option<String> = json_string_at(body.as_bytes(), "/status");
            let stage: Option<String> = json_string_at(body.as_bytes(), "/stage");
            progress_of(state, stage)
        },
        None => (owned("pending"), owned("pending")),
    }
}

/// What the state of an installation calls for.
#[derive(Debug, PartialEq, Eq, Structural, Clone, Copy)]
pub enum InstallStep {
    Wait,
    CheckTools,
    ReportFailure,
}

/// What the state of an installation calls for.
pub open spec fn step_for(state: Seq<char>) -> InstallStep {
    if state == "success"@ {
        InstallStep::CheckTools
    } else if state == "failed"@ {
        InstallStep::ReportFailure
    } else {
        InstallStep::Wait
    }
}

/// What the state of an installation calls for.
pub fn installation_step(state: &str) -> (step: InstallStep)
    ensures
        step == step_for(state@),
{
    if same(state, "success") {
        InstallStep::CheckTools
    } else if same(state, "failed") {
        InstallStep::ReportFailure
    } else {
        InstallStep::Wait
    }
}

/// Judges an installation that says that it succeeded, by the tools that are found then.
pub fn check_installation(status: &CliStatus, upgrade_target: Option<&str>) -> (r: Result<
    (),
    String,
>)
    ensures
        match r {
            Ok(_) => status.prerequisites_ready && (match upgrade_target {
                Some(target) => at_least(status.cli_version@, version_of(trim(target@))),
                None => true,
            }),
            Err(message) => if !status.prerequisites_ready {
                message@
                    == "Install script completed, but some dependencies still do not meet version requirements; please re-check"@
            } else {
                match upgrade_target {
                    Some(target) => !at_least(status.cli_version@, version_of(trim(target@)))
                        && message@ == "AgentSeek CLI upgrade did not reach target version "@
                        + trim(target@) + "; currently detected "@ + status.cli_version@,
                    None => false,
                }
            },
        },
{
    if !status.prerequisites_ready {
        return Err(
            owned(
                "Install script completed, but some dependencies still do not meet version requirements; please re-check",
            ),
        );
    }
    match upgrade_target {
        Some(target) => {
            let wanted: String = trimmed(target);
            if !meets_requirement(status.cli_version.as_str(), wanted.as_str()) {
                return Err(
                    owned("AgentSeek CLI upgrade did not reach target version ").concat(
                        wanted.as_str(),
                    ).concat("; currently detected ").concat(status.cli_version.as_str()),
                );
            }
            Ok(())
        },
        None => Ok(()),
    }
}

// ---------------------------------------------------------------------------------------------
// Laws
// ---------------------------------------------------------------------------------------------
/// A text with a character in front.
pub open spec fn led_by(c: char, text: Option<Seq<char>>) -> Option<Seq<char>> {
    match text {
        Some(t) => Some(seq![c] + t),
        None => None,
    }
}

/// What a POSIX shell reads a word of quoted parts as; `quote` is the quote that is open. Nothing
/// where the word holds more than that.
pub open spec fn shell_reading(word: Seq<char>, quote: Option<char>) -> Option<Seq<char>>
    decreases word.len(),
{
    if word.len() == 0 {
        if quote is None {
            Some(seq![])
        } else {
            None
        }
    } else {
        let c = word[0];
        match quote {
            None => if c == '\'' || c == '"' {
                shell_reading(word.skip(1), Some(c))
            } else {
                None
            },
            Some(q) => if c == q {
                shell_reading(word.skip(1), None)
            } else if q == '"' && (c == '\\' || c == '$' || c == '`') {
                None
            } else {
                led_by(c, shell_reading(word.skip(1), quote))
            },
        }
    }
}

proof fn lemma_plain_part(part: Seq<char>, rest: Seq<char>)
    requires
        forall|i: int| 0 <= i < part.len() ==> part[i] != '\'',
    ensures
        shell_reading(part + rest, Some('\'')) == (match shell_reading(rest, Some('\'')) {
            Some(t) => Some(part + t),
            None => None,
        }),
    decreases part.len(),
{
    let all = part + rest;
    if part.len() == 0 {
        assert(all =~= rest);
        match shell_reading(rest, Some('\'')) {
            Some(t) => {
                assert(part + t =~= t);
            },
            None => {},
        }
    } else {
        let tail = part.skip(1);
        lemma_plain_part(tail, rest);
        assert(all[0] == part[0]);
        assert(all.skip(1) =~= tail + rest);
        match shell_reading(rest, Some('\'')) {
            Some(t) => {
                assert(seq![part[0]] + (tail + t) =~= part + t);
            },
            None => {},
        }
    }
}

proof fn lemma_quoted_part(value: Seq<char>, rest: Seq<char>)
    requires
        shell_reading(rest, Some('\'')) is Some,
    ensures
        shell_reading(replace_all(value, "'"@, "'\"'\"'"@) + rest, Some('\'')) == Some(
            value + shell_reading(rest, Some('\''))->0,
        ),
    decreases value.len(),
{
    reveal_strlit("'");
    reveal_strlit("'\"'\"'");
    let end = shell_reading(rest, Some('\''))->0;
    let escaped = "'\"'\"'"@;
    assert("'"@ =~= seq!['\'']);
    crate::search::lemma_find(value, "'"@);
    match crate::search::find(value, "'"@) {
        None => {
            assert forall|i: int| 0 <= i < value.len() implies value[i] != '\'' by {
                crate::search::lemma_at_char(value, '\'', i);
                if value[i] == '\'' {
                    assert(crate::search::at(value, "'"@, i));
                }
            }
            lemma_plain_part(value, rest);
        },
        Some(k) => {
            crate::search::lemma_at_char(value, '\'', k);
            let front = value.take(k);
            assert forall|i: int| 0 <= i < front.len() implies front[i] != '\'' by {
                crate::search::lemma_at_char(value, '\'', i);
            }
            let behind = value.skip(k + 1);
            lemma_quoted_part(behind, rest);
            let inner = replace_all(behind, "'"@, escaped) + rest;
            let told = shell_reading(inner, Some('\''))->0;
            let w0 = escaped + inner;
            assert(replace_all(value, "'"@, escaped) + rest =~= front + w0);
            lemma_plain_part(front, w0);
            let w1 = w0.skip(1);
            let w2 = w1.skip(1);
            let w3 = w2.skip(1);
            let w4 = w3.skip(1);
            assert(w0[0] == '\'' && w1[0] == '"' && w2[0] == '\'' && w3[0] == '"' && w4[0] == '\'');
            assert(w4.skip(1) =~= inner);
            assert(shell_reading(w4, None) == shell_reading(inner, Some('\'')));
            assert(shell_reading(w3, Some('"')) == shell_reading(w4, None));
            assert(shell_reading(w2, Some('"')) == led_by('\'', shell_reading(w3, Some('"'))));
            assert(shell_reading(w1, None) == shell_reading(w2, Some('"')));
            assert(shell_reading(w0, Some('\'')) == shell_reading(w1, None));
            assert(front + (seq!['\''] + (behind + end)) =~= value + end);
        },
    }
}

/// A POSIX shell reads a quoted value as the value, whatever it holds.
pub proof fn law_shell_reads_the_value(value: Seq<char>)
    ensures
        shell_reading(shell_word(value), None) == Some(value),
{
    reveal_strlit("'");
    let word = shell_word(value);
    let end = "'"@;
    assert(end.skip(1) =~= Seq::<char>::empty());
    assert(shell_reading(end.skip(1), None) == Some(Seq::<char>::empty()));
    assert(shell_reading(end, Some('\'')) == Some(Seq::<char>::empty()));
    lemma_quoted_part(value, end);
    assert(word[0] == '\'');
    assert(word.skip(1) =~= replace_all(value, "'"@, "'\"'\"'"@) + end);
    assert(value + Seq::<char>::empty() =~= value);
}

/// What PowerShell reads the inside and the end of a literal string as. Nothing where text follows
/// the string.
pub open spec fn powershell_reading(word: Seq<char>) -> Option<Seq<char>>
    decreases word.len(),
{
    if word.len() == 0 {
        None
    } else if word[0] != '\'' {
        led_by(word[0], powershell_reading(word.skip(1)))
    } else if word.len() == 1 {
        Some(seq![])
    } else if word[1] == '\'' {
        led_by('\'', powershell_reading(word.skip(2)))
    } else {
        None
    }
}

proof fn lemma_plain_literal(part: Seq<char>, rest: Seq<char>)
    requires
        forall|i: int| 0 <= i < part.len() ==> part[i] != '\'',
    ensures
        powershell_reading(part + rest) == (match powershell_reading(rest) {
            Some(t) => Some(part + t),
            None => None,
        }),
    decreases part.len(),
{
    let all = part + rest;
    if part.len() == 0 {
        assert(all =~= rest);
        match powershell_reading(rest) {
            Some(t) => {
                assert(part + t =~= t);
            },
            None => {},
        }
    } else {
        let tail = part.skip(1);
        lemma_plain_literal(tail, rest);
        assert(all[0] == part[0]);
        assert(all.skip(1) =~= tail + rest);
        match powershell_reading(rest) {
            Some(t) => {
                assert(seq![part[0]] + (tail + t) =~= part + t);
            },
            None => {},
        }
    }
}

proof fn lemma_doubled_quotes(value: Seq<char>)
    ensures
        powershell_reading(replace_all(value, "'"@, "''"@) + "'"@) == Some(value),
    decreases value.len(),
{
    reveal_strlit("'");
    reveal_strlit("''");
    let end = "'"@;
    let doubled = "''"@;
    assert(end =~= seq!['\'']);
    assert(powershell_reading(end) == Some(Seq::<char>::empty()));
    crate::search::lemma_find(value, end);
    match crate::search::find(value, end) {
        None => {
            assert forall|i: int| 0 <= i < value.len() implies value[i] != '\'' by {
                crate::search::lemma_at_char(value, '\'', i);
                if value[i] == '\'' {
                    assert(crate::search::at(value, end, i));
                }
            }
            lemma_plain_literal(value, end);
            assert(value + Seq::<char>::empty() =~= value);
        },
        Some(k) => {
            crate::search::lemma_at_char(value, '\'', k);
            let front = value.take(k);
            assert forall|i: int| 0 <= i < front.len() implies front[i] != '\'' by {
                crate::search::lemma_at_char(value, '\'', i);
            }
            let behind = value.skip(k + 1);
            lemma_doubled_quotes(behind);
            let inner = replace_all(behind, end, doubled) + end;
            let w = doubled + inner;
            assert(replace_all(value, end, doubled) + end =~= front + w);
            lemma_plain_literal(front, w);
            assert(w[0] == '\'' && w[1] == '\'');
            assert(w.skip(2) =~= inner);
            assert(powershell_reading(w) == led_by('\'', powershell_reading(inner)));
            assert(front + (seq!['\''] + behind) =~= value);
        },
    }
}

/// PowerShell reads a quoted value as the value, whatever it holds.
pub proof fn law_powershell_reads_the_value(value: Seq<char>)
    ensures
        powershell_word(value)[0] == '\'',
        powershell_reading(powershell_word(value).skip(1)) == Some(value),
{
    reveal_strlit("'");
    lemma_doubled_quotes(value);
    let word = powershell_word(value);
    assert(word[0] == "'"@[0]);
    assert(word.skip(1) =~= replace_all(value, "'"@, "''"@) + "'"@);
}

// ---------------------------------------------------------------------------------------------
// Running the script
// ---------------------------------------------------------------------------------------------
/// How often the state of an installation is looked at before it is given up.
pub const INSTALL_CHECKS: u32 = 3_600;

/// The time between two looks.
pub const INSTALL_CHECK_MILLISECONDS: u64 = 500;

/// How much of the end of the log of an installation is shown.
pub const SHOWN_LOG_BYTES: usize = 16_384;

/// Where the shown end of a log of this length starts.
pub fn install_log_tail(length: usize) -> (start: usize)
    ensures
        start <= length,
        length - start == (if length < SHOWN_LOG_BYTES {
            length
        } else {
            SHOWN_LOG_BYTES
        }),
{
    if length < SHOWN_LOG_BYTES {
        0
    } else {
        length - SHOWN_LOG_BYTES
    }
}

/// Why an installation failed: the end of its log, where there is one.
pub fn failure_reason(tail: &str) -> (out: String)
    ensures
        out@ == (if tail@.len() == 0 {
            "Terminal install script execution failed; please check terminal output"@
        } else {
            tail@
        }),
{
    if tail.is_empty() {
        owned("Terminal install script execution failed; please check terminal output")
    } else {
        owned(tail)
    }
}

/// The terminals of a Linux desktop, in the order in which they are tried, with what each is called
/// with to run a script.
pub open spec fn terminals(script: Seq<char>) -> Seq<(Seq<char>, Seq<Seq<char>>)> {
    seq![
        ("x-terminal-emulator"@, seq!["-e"@, "bash"@, script]),
        ("gnome-terminal"@, seq!["--"@, "bash"@, script]),
        ("konsole"@, seq!["-e"@, "bash"@, script]),
    ]
}

/// The programs of a list, each with its arguments.
pub open spec fn program_views(list: Seq<(String, Vec<String>)>) -> Seq<(Seq<char>, Seq<Seq<char>>)> {
    list.map_values(|c: (String, Vec<String>)| (c.0@, texts(c.1@)))
}

fn terminal_args(option: &str, script: &str) -> (out: Vec<String>)
    ensures
        texts(out@) == seq![option@, "bash"@, script@],
{
    let mut out: Vec<String> = Vec::new();
    out.push(owned(option));
    out.push(owned("bash"));
    out.push(owned(script));
    proof {
        assert(texts(out@) =~= seq![option@, "bash"@, script@]);
    }
    out
}

/// The terminals of a Linux desktop, in the order in which they are tried.
pub fn terminal_commands(script: &str) -> (out: Vec<(String, Vec<String>)>)
    ensures
        program_views(out@) == terminals(script@),
{
    let mut out: Vec<(String, Vec<String>)> = Vec::new();
    out.push((owned("x-terminal-emulator"), terminal_args("-e", script)));
    out.push((owned("gnome-terminal"), terminal_args("--", script)));
    out.push((owned("konsole"), terminal_args("-e", script)));
    proof {
        assert(program_views(out@) =~= terminals(script@));
    }
    out
}

} // verus!
