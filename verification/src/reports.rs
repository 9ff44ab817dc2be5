//! What the log says of what was done.
use vstd::prelude::*;
use vstd::string::*;

use crate::number::{decimal, decimal_text};
use crate::projects::{path_lines, write_views, written_paths, FileWrite};
use crate::text::owned;

verus! {

/// A count in decimal.
fn count_text(n: usize) -> (out: String)
    ensures
        out@ == decimal(n as nat),
{
    decimal_text(n as u64)
}

/// What the log says of the variables that were saved.
pub fn saved_variables(path: &str, keys: usize, synced: usize) -> (out: String)
    ensures
        out@ == "Generated "@ + path@ + " ("@ + decimal(keys as nat) + " keys, synced "@ + decimal(
            synced as nat,
        ) + " to vault)"@,
{
    owned("Generated ").concat(path).concat(" (").concat(count_text(keys).as_str()).concat(
        " keys, synced ",
    ).concat(count_text(synced).as_str()).concat(" to vault)")
}

/// What the log says of the variables that were imported.
pub fn imported_variables(count: usize, path: &str) -> (out: String)
    ensures
        out@ == "Imported "@ + decimal(count as nat) + " variables from "@ + path@,
{
    owned("Imported ").concat(count_text(count).as_str()).concat(" variables from ").concat(path)
}

/// What the log says of the variables that were exported.
pub fn exported_variables(
    path: &str,
    keys: usize,
    filled: usize,
    missing: usize,
    source: &str,
) -> (out: String)
    ensures
        out@ == "Exported "@ + path@ + "\nTotal variables: "@ + decimal(keys as nat)
            + "\nBackfilled from vault: "@ + decimal(filled as nat) + "\nStill missing: "@ + decimal(
            missing as nat,
        ) + "\nSource: "@ + source@,
{
    owned("Exported ").concat(path).concat("\nTotal variables: ").concat(
        count_text(keys).as_str(),
    ).concat("\nBackfilled from vault: ").concat(count_text(filled).as_str()).concat(
        "\nStill missing: ",
    ).concat(count_text(missing).as_str()).concat("\nSource: ").concat(source)
}

/// What the log says of a new number of days that runtime entries stay.
pub fn changed_retention(days: u32, removed: usize) -> (out: String)
    ensures
        out@ == "Runtime log retention set to "@ + decimal(days as nat) + " days; cleaned up "@
            + decimal(removed as nat) + " log entries"@,
{
    owned("Runtime log retention set to ").concat(count_text(days as usize).as_str()).concat(
        " days; cleaned up ",
    ).concat(count_text(removed).as_str()).concat(" log entries")
}

/// What the log says of the templates that were listed.
pub fn listed_templates(
    program: &str,
    version: Option<String>,
    tool_dir: &str,
    count: usize,
    output: &str,
) -> (out: String)
    ensures
        out@ == "agentseek CLI: "@ + program@ + "\nagentseek version: "@ + (match version {
            Some(v) => v@,
            None => seq![],
        }) + "\nuv tool dir: "@ + tool_dir@ + "\n--list-templates returned "@ + decimal(count as nat)
            + " templates\n"@ + output@,
{
    let told: String = match version {
        Some(v) => v,
        None => String::new(),
    };
    owned("agentseek CLI: ").concat(program).concat("\nagentseek version: ").concat(
        told.as_str(),
    ).concat("\nuv tool dir: ").concat(tool_dir).concat("\n--list-templates returned ").concat(
        count_text(count).as_str(),
    ).concat(" templates\n").concat(output)
}

/// What the log says of the variables that an instance is started with; nothing where there is
/// nothing to show.
pub fn start_environment(summary: &str) -> (r: Option<String>)
    ensures
        match r {
            Some(message) => summary@.len() > 0 && message@
                == "Instance .env injected into startup process; addresses below override lifecycle default ports\n"@
                + summary@,
            None => summary@.len() == 0,
        },
{
    if summary.is_empty() {
        None
    } else {
        Some(
            owned(
                "Instance .env injected into startup process; addresses below override lifecycle default ports\n",
            ).concat(summary),
        )
    }
}

/// What the log says of files that were brought in step; nothing where there is none.
pub fn synchronized_files(before_restart: bool, writes: &Vec<FileWrite>) -> (r: Option<String>)
    ensures
        match r {
            Some(message) => writes@.len() > 0 && message@ == (if before_restart {
                "Runtime configs updated based on instance .env before restart\n"@
            } else {
                "Runtime configs updated based on instance .env\n"@
            }) + path_lines(write_views(writes@).map_values(|w: (Seq<char>, Seq<char>)| w.0)),
            None => writes@.len() == 0,
        },
{
    if writes.len() == 0 {
        return None;
    }
    let opening: &str = if before_restart {
        "Runtime configs updated based on instance .env before restart\n"
    } else {
        "Runtime configs updated based on instance .env\n"
    };
    let paths: String = written_paths(writes);
    Some(owned(opening).concat(paths.as_str()))
}

} // verus!
