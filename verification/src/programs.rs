//! Where the programs are that the application calls.
use vstd::prelude::*;
use vstd::string::*;

use crate::paths::{join_path, path_below, path_separator, separator_on};
use crate::search::{trim, trimmed};
use crate::text::{opt_text, owned, texts};
use crate::versions::{
    is_numbers_before, lemma_numbers_order, major_of, newest_name, newest_with_major, numbers_before, numeric_version,
    version_of,
};

verus! {

// ---------------------------------------------------------------------------------------------
// The search path of programs
// ---------------------------------------------------------------------------------------------
/// A version in a list of which the newest come first: before those that are not newer.
pub open spec fn insert_version(list: Seq<Seq<char>>, name: Seq<char>) -> Seq<Seq<char>>
    decreases list.len(),
{
    if list.len() == 0 {
        seq![name]
    } else if numbers_before(version_of(name), version_of(list.last())) {
        list.push(name)
    } else {
        insert_version(list.drop_last(), name).push(list.last())
    }
}

/// The names of versions, the newest first.
pub open spec fn newest_versions(names: Seq<Seq<char>>) -> Seq<Seq<char>>
    decreases names.len(),
{
    if names.len() == 0 {
        names
    } else {
        insert_version(newest_versions(names.drop_last()), names.last())
    }
}

/// No name stands behind one that is older.
pub open spec fn newest_lead(list: Seq<Seq<char>>) -> bool {
    forall|i: int, j: int|
        0 <= i < j < list.len() ==> !numbers_before(
            version_of(#[trigger] list[i]),
            version_of(#[trigger] list[j]),
        )
}

/// The names of one version.
pub open spec fn of_version(version: Seq<u64>) -> spec_fn(Seq<char>) -> bool {
    |name: Seq<char>| version_of(name) == version
}

proof fn lemma_insert_version(list: Seq<Seq<char>>, x: Seq<char>)
    requires
        newest_lead(list),
    ensures
        newest_lead(insert_version(list, x)),
        insert_version(list, x).to_multiset() =~= list.to_multiset().insert(x),
        forall|i: int|
            0 <= i < insert_version(list, x).len() ==> #[trigger] insert_version(list, x)[i] == x
                || list.contains(insert_version(list, x)[i]),
    decreases list.len(),
{
    broadcast use vstd::seq_lib::group_to_multiset_ensures;

    let out = insert_version(list, x);
    if list.len() == 0 {
        assert(list =~= Seq::<Seq<char>>::empty());
        assert(out =~= list.push(x));
    } else if numbers_before(version_of(x), version_of(list.last())) {
        assert forall|i: int, j: int| 0 <= i < j < out.len() implies !numbers_before(
            version_of(#[trigger] out[i]),
            version_of(#[trigger] out[j]),
        ) by {
            if j == list.len() {
                assert(out[i] == list[i]);
                if i < list.len() - 1 {
                    assert(!numbers_before(version_of(list[i]), version_of(list[list.len() - 1])));
                }
                lemma_numbers_order(version_of(list[i]), version_of(x), version_of(list.last()));
            } else {
                assert(out[i] == list[i] && out[j] == list[j]);
            }
        }
    } else {
        let rest = list.drop_last();
        let placed = insert_version(rest, x);
        lemma_insert_version(rest, x);
        assert(list =~= rest.push(list.last()));
        assert forall|i: int| 0 <= i < out.len() implies #[trigger] out[i] == x || list.contains(
            out[i],
        ) by {
            if i < placed.len() {
                assert(out[i] == placed[i]);
                if placed[i] != x {
                    let k = choose|k: int| 0 <= k < rest.len() && rest[k] == placed[i];
                    assert(list[k] == placed[i]);
                }
            } else {
                assert(out[i] == list[list.len() - 1]);
            }
        }
        assert forall|i: int, j: int| 0 <= i < j < out.len() implies !numbers_before(
            version_of(#[trigger] out[i]),
            version_of(#[trigger] out[j]),
        ) by {
            assert(out[i] == placed[i]);
            if j == placed.len() {
                if placed[i] != x {
                    let k = choose|k: int| 0 <= k < rest.len() && rest[k] == placed[i];
                    assert(list[k] == placed[i]);
                    assert(!numbers_before(version_of(list[k]), version_of(list[list.len() - 1])));
                }
            } else {
                assert(out[j] == placed[j]);
            }
        }
    }
}

/// A name goes before those of its version.
proof fn lemma_insert_before_its_version(list: Seq<Seq<char>>, x: Seq<char>, version: Seq<u64>)
    requires
        newest_lead(list),
    ensures
        insert_version(list, x).filter(of_version(version)) == (if version_of(x) == version {
            seq![x]
        } else {
            seq![]
        }) + list.filter(of_version(version)),
    decreases list.len(),
{
    reveal(Seq::filter);
    let out = insert_version(list, x);
    let first = if version_of(x) == version {
        seq![x]
    } else {
        seq![]
    };
    if list.len() == 0 {
        assert(out.drop_last() =~= list);
        assert(out.filter(of_version(version)) =~= first + list.filter(of_version(version)));
    } else if numbers_before(version_of(x), version_of(list.last())) {
        assert(out.drop_last() =~= list);
        if version_of(x) == version {
            let kept = list.filter(of_version(version));
            if kept.len() > 0 {
                list.lemma_filter_pred(of_version(version), 0);
                assert(kept.contains(kept[0]));
                list.lemma_filter_contains_rev(of_version(version), kept[0]);
                let k = choose|k: int| 0 <= k < list.len() && list[k] == kept[0];
                if k < list.len() - 1 {
                    assert(!numbers_before(version_of(list[k]), version_of(list[list.len() - 1])));
                }
                lemma_numbers_order(version_of(x), version_of(x), version_of(x));
            }
            assert(kept =~= seq![]);
        }
        assert(out.filter(of_version(version)) =~= first + list.filter(of_version(version)));
    } else {
        let rest = list.drop_last();
        assert(newest_lead(rest));
        lemma_insert_before_its_version(rest, x, version);
        assert(out.drop_last() =~= insert_version(rest, x));
        assert(out.filter(of_version(version)) =~= first + list.filter(of_version(version)));
    }
}

/// The versions that are listed are those that were given, no later one is newer than an earlier
/// one, and names of the same version stand in the reverse of the order in which they came.
pub proof fn law_newest_versions_lead(names: Seq<Seq<char>>)
    ensures
        newest_versions(names).to_multiset() == names.to_multiset(),
        newest_lead(newest_versions(names)),
        forall|version: Seq<u64>|
            #[trigger] newest_versions(names).filter(of_version(version)) == names.filter(
                of_version(version),
            ).reverse(),
    decreases names.len(),
{
    broadcast use vstd::seq_lib::group_to_multiset_ensures;

    if names.len() == 0 {
        assert(names =~= Seq::<Seq<char>>::empty());
        reveal(Seq::filter);
        assert forall|version: Seq<u64>|
            #[trigger] newest_versions(names).filter(of_version(version)) == names.filter(
                of_version(version),
            ).reverse() by {
            assert(names.filter(of_version(version)).reverse() =~= names);
        }
    } else {
        let rest = names.drop_last();
        let x = names.last();
        law_newest_versions_lead(rest);
        lemma_insert_version(newest_versions(rest), x);
        assert(names =~= rest.push(x));
        assert forall|version: Seq<u64>|
            #[trigger] newest_versions(names).filter(of_version(version)) == names.filter(
                of_version(version),
            ).reverse() by {
            reveal(Seq::filter);
            lemma_insert_before_its_version(newest_versions(rest), x, version);
            let before = rest.filter(of_version(version));
            assert(newest_versions(rest).filter(of_version(version)) == before.reverse());
            if version_of(x) == version {
                assert(names.filter(of_version(version)) == before.push(x));
                assert(before.push(x).reverse() =~= seq![x] + before.reverse());
            } else {
                assert(names.filter(of_version(version)) == before);
                assert(Seq::<Seq<char>>::empty() + before.reverse() =~= before.reverse());
            }
        }
    }
}

fn sort_versions(names: &Vec<String>) -> (out: Vec<String>)
    ensures
        texts(out@) == newest_versions(texts(names@)),
{
    let ghost all = texts(names@);
    let mut out: Vec<String> = Vec::new();
    let mut i: usize = 0;
    proof {
        assert(all.take(0) =~= Seq::<Seq<char>>::empty());
        assert(texts(out@) =~= Seq::<Seq<char>>::empty());
    }
    while i < names.len()
        invariant
            i <= names@.len(),
            all == texts(names@),
            texts(out@) == newest_versions(all.take(i as int)),
        decreases names@.len() - i,
    {
        let ghost before = texts(out@);
        let ghost x = names@[i as int]@;
        proof {
            assert(all.take(i + 1).drop_last() =~= all.take(i as int));
            assert(all.take(i + 1).last() == x);
        }
        let version: Vec<u64> = numeric_version(names[i].as_str());
        let mut p: usize = out.len();
        let mut placed: bool = false;
        proof {
            assert(before.take(p as int) =~= before);
            assert(insert_version(before, x) + before.skip(p as int) =~= insert_version(before, x));
        }
        while p > 0 && !placed
            invariant
                p <= out@.len(),
                x == names@[i as int]@,
                version@ == version_of(x),
                before == texts(out@),
                placed ==> p > 0 && numbers_before(version_of(x), version_of(before[p - 1])),
                insert_version(before, x) == insert_version(before.take(p as int), x) + before.skip(
                    p as int,
                ),
            decreases p, !placed as int,
        {
            proof {
                assert(before[p - 1] == out@[p - 1]@);
                assert(before.take(p as int).last() == before[p - 1]);
                assert(before.take(p as int).drop_last() =~= before.take(p - 1));
            }
            let other: Vec<u64> = numeric_version(out[p - 1].as_str());
            if is_numbers_before(&version, &other) {
                placed = true;
            } else {
                proof {
                    assert(insert_version(before.take(p - 1), x).push(before[p - 1]) + before.skip(
                        p as int,
                    ) =~= insert_version(before.take(p - 1), x) + before.skip(p - 1));
                }
                p -= 1;
            }
        }
        proof {
            if p > 0 {
                assert(before.take(p as int).last() == before[p - 1]);
                assert(insert_version(before.take(p as int), x) == before.take(p as int).push(x));
            } else {
                assert(insert_version(before.take(p as int), x) =~= seq![x]);
            }
        }
        out.insert(p, names[i].clone());
        proof {
            assert(texts(out@) =~= insert_version(before.take(p as int), x) + before.skip(
                p as int,
            ));
        }
        i += 1;
    }
    proof {
        assert(all.take(i as int) =~= all);
    }
    out
}

/// The directory of Node versions below that of the runtime.
pub open spec fn node_versions_dir(runtime_root: Seq<char>, separator: char) -> Seq<char> {
    join_path(separator, runtime_root, "nvm/versions/node"@)
}

/// The directories of the programs of managed Node versions, the newest first.
pub open spec fn managed_bins(
    versions_dir: Seq<char>,
    names: Seq<Seq<char>>,
    separator: char,
) -> Seq<Seq<char>> {
    newest_versions(names).map_values(
        |n: Seq<char>| join_path(separator, join_path(separator, versions_dir, n), "bin"@),
    )
}

/// The directories for programs in a home directory.
pub open spec fn home_bins(home: Seq<char>, separator: char) -> Seq<Seq<char>> {
    seq![
        join_path(separator, home, ".local/bin"@),
        join_path(separator, home, ".cargo/bin"@),
        join_path(separator, home, ".pyenv/shims"@),
        join_path(separator, home, ".pyenv/bin"@),
    ]
}

/// The directories for programs of the system.
pub open spec fn system_bins() -> Seq<Seq<char>> {
    seq![
        "/opt/homebrew/bin"@,
        "/usr/local/bin"@,
        "/usr/bin"@,
        "/bin"@,
        "/Library/Frameworks/Python.framework/Versions/3.9/bin"@,
    ]
}

/// What is known of the machine when a program is looked for.
#[derive(Debug)]
pub struct SearchFacts {
    /// What stands between the parts of a path.
    pub separator: char,
    pub runtime_root: Option<String>,
    /// The names of the managed Node versions that hold the program.
    pub node_versions: Vec<String>,
    pub node_bin: Option<String>,
    pub home: Option<String>,
    /// The directories that were searched before.
    pub existing: Vec<String>,
}

/// The directories in which programs are looked for, in their order: those of the managed Node
/// versions, the one chosen for Node, those of the home directory, those of the system and those
/// that were searched before.
pub open spec fn search_path(facts: SearchFacts) -> Seq<Seq<char>> {
    (match facts.runtime_root {
        Some(root) => managed_bins(
            node_versions_dir(root@, facts.separator),
            texts(facts.node_versions@),
            facts.separator,
        ),
        None => seq![],
    }) + (match facts.node_bin {
        Some(bin) => seq![bin@],
        None => seq![],
    }) + (match facts.home {
        Some(home) => home_bins(home@, facts.separator),
        None => seq![],
    }) + system_bins() + texts(facts.existing@)
}

fn push_all(out: &mut Vec<String>, more: &Vec<String>)
    ensures
        texts(final(out)@) == texts(old(out)@) + texts(more@),
{
    let ghost start = texts(out@);
    let ghost all = texts(more@);
    let mut i: usize = 0;
    proof {
        assert(start =~= start + all.take(0));
    }
    while i < more.len()
        invariant
            i <= more@.len(),
            all == texts(more@),
            texts(out@) == start + all.take(i as int),
        decreases more@.len() - i,
    {
        let ghost before = texts(out@);
        out.push(more[i].clone());
        proof {
            assert(texts(out@) =~= before.push(all[i as int]));
            assert(texts(out@) =~= start + all.take(i + 1));
        }
        i += 1;
    }
    proof {
        assert(all.take(i as int) =~= all);
    }
}

/// The directories in which programs are looked for.
pub fn runtime_path(facts: &SearchFacts) -> (out: Vec<String>)
    ensures
        texts(out@) == search_path(*facts),
{
    let separator: char = facts.separator;
    let mut out: Vec<String> = Vec::new();
    proof {
        assert(texts(out@) =~= Seq::<Seq<char>>::empty());
    }
    match &facts.runtime_root {
        Some(root) => {
            let versions_dir: String = path_below(separator, root.as_str(), "nvm/versions/node");
            let names: Vec<String> = sort_versions(&facts.node_versions);
            let ghost bins = managed_bins(versions_dir@, texts(facts.node_versions@), separator);
            let mut i: usize = 0;
            while i < names.len()
                invariant
                    i <= names@.len(),
                    texts(names@) == newest_versions(texts(facts.node_versions@)),
                    bins == managed_bins(versions_dir@, texts(facts.node_versions@), separator),
                    out@.len() == i,
                    forall|k: int| 0 <= k < i ==> (#[trigger] out@[k])@ == bins[k],
                decreases names@.len() - i,
            {
                proof {
                    assert(texts(names@)[i as int] == names@[i as int]@);
                }
                let version: String = path_below(
                    separator,
                    versions_dir.as_str(),
                    names[i].as_str(),
                );
                out.push(path_below(separator, version.as_str(), "bin"));
                i += 1;
            }
            proof {
                assert(texts(names@).len() == names@.len());
                assert(texts(out@) =~= bins);
            }
        },
        None => {},
    }
    let ghost first = texts(out@);
    match &facts.node_bin {
        Some(bin) => {
            out.push(bin.clone());
        },
        None => {},
    }
    let ghost second = match &facts.node_bin {
        Some(bin) => seq![bin@],
        None => seq![],
    };
    proof {
        assert(texts(out@) =~= first + second);
    }
    match &facts.home {
        Some(home) => {
            out.push(path_below(separator, home.as_str(), ".local/bin"));
            out.push(path_below(separator, home.as_str(), ".cargo/bin"));
            out.push(path_below(separator, home.as_str(), ".pyenv/shims"));
            out.push(path_below(separator, home.as_str(), ".pyenv/bin"));
        },
        None => {},
    }
    let ghost third = match &facts.home {
        Some(home) => home_bins(home@, separator),
        None => seq![],
    };
    proof {
        assert(texts(out@) =~= first + second + third);
    }
    out.push(owned("/opt/homebrew/bin"));
    out.push(owned("/usr/local/bin"));
    out.push(owned("/usr/bin"));
    out.push(owned("/bin"));
    out.push(owned("/Library/Frameworks/Python.framework/Versions/3.9/bin"));
    proof {
        assert(texts(out@) =~= first + second + third + system_bins());
    }
    push_all(&mut out, &facts.existing);
    out
}

/// The directory of the managed Node.
pub open spec fn node_bin_of(
    runtime_root: Seq<char>,
    version: Seq<char>,
    windows: Option<bool>,
    exact_exists: bool,
    names: Seq<Seq<char>>,
) -> Seq<char> {
    match windows {
        Some(arm) => join_path(
            '\\',
            runtime_root,
            "node-v"@ + version + "-"@ + (if arm {
                "win-arm64"@
            } else {
                "win-x64"@
            }),
        ),
        None => {
            let dir = join_path(
                '/',
                join_path('/', join_path('/', runtime_root, "nvm"@), "versions"@),
                "node"@,
            );
            let exact = join_path('/', join_path('/', dir, "v"@ + version), "bin"@);
            if exact_exists {
                exact
            } else {
                match newest_name(names, major_of(version)) {
                    Some(name) => join_path('/', join_path('/', dir, name), "bin"@),
                    None => exact,
                }
            }
        },
    }
}

/// The directory of the managed Node: that of the wanted version, else that of the newest with its
/// major version. `windows` says, on Windows, whether the machine is an ARM one; `names` holds the
/// names of the versions that hold the program.
pub fn managed_node_bin(
    runtime_root: &str,
    node_version: &str,
    windows: Option<bool>,
    exact_exists: bool,
    names: &Vec<String>,
) -> (out: String)
    ensures
        out@ == node_bin_of(runtime_root@, node_version@, windows, exact_exists, texts(names@)),
{
    match windows {
        Some(arm) => {
            let name: String = owned("node-v").concat(node_version).concat("-").concat(
                if arm {
                    "win-arm64"
                } else {
                    "win-x64"
                },
            );
            path_below('\\', runtime_root, name.as_str())
        },
        None => {
            let nvm: String = path_below('/', runtime_root, "nvm");
            let versions: String = path_below('/', nvm.as_str(), "versions");
            let dir: String = path_below('/', versions.as_str(), "node");
            let wanted: String = owned("v").concat(node_version);
            let exact_dir: String = path_below('/', dir.as_str(), wanted.as_str());
            let exact: String = path_below('/', exact_dir.as_str(), "bin");
            if exact_exists {
                return exact;
            }
            match newest_with_major(names, node_version) {
                Some(name) => {
                    let version_dir: String = path_below('/', dir.as_str(), name.as_str());
                    path_below('/', version_dir.as_str(), "bin")
                },
                None => exact,
            }
        },
    }
}

// ---------------------------------------------------------------------------------------------
// uv and agentseek
// ---------------------------------------------------------------------------------------------
/// The places where `uv` is looked for.
pub open spec fn uv_places(home: Option<Seq<char>>, separator: char) -> Seq<Seq<char>> {
    (match home {
        Some(h) => seq![
            join_path(separator, h, ".local/bin/uv"@),
            join_path(separator, h, ".cargo/bin/uv"@),
            join_path(separator, h, ".pyenv/shims/uv"@),
        ],
        None => seq![],
    }) + seq![
        "/opt/homebrew/bin/uv"@,
        "/usr/local/bin/uv"@,
        "/Library/Frameworks/Python.framework/Versions/3.9/bin/uv"@,
    ]
}

/// The places where `uv` is looked for, in their order.
pub fn uv_candidates(home: Option<String>, separator: char) -> (out: Vec<String>)
    ensures
        texts(out@) == uv_places(opt_text(home), separator),
{
    let mut out: Vec<String> = Vec::new();
    match &home {
        Some(h) => {
            out.push(path_below(separator, h.as_str(), ".local/bin/uv"));
            out.push(path_below(separator, h.as_str(), ".cargo/bin/uv"));
            out.push(path_below(separator, h.as_str(), ".pyenv/shims/uv"));
        },
        None => {},
    }
    out.push(owned("/opt/homebrew/bin/uv"));
    out.push(owned("/usr/local/bin/uv"));
    out.push(owned("/Library/Frameworks/Python.framework/Versions/3.9/bin/uv"));
    proof {
        assert(texts(out@) =~= uv_places(opt_text(home), separator));
    }
    out
}

/// The directory of the tools of `uv`, by what it printed; empty where it could not be asked.
pub fn uv_tool_bin_dir(stdout: Option<String>) -> (out: String)
    ensures
        out@ == (match stdout {
            Some(s) => trim(s@),
            None => seq![],
        }),
{
    match stdout {
        Some(s) => trimmed(s.as_str()),
        None => String::new(),
    }
}

/// The place of `agentseek` among the tools of `uv`.
pub open spec fn agentseek_place(success: bool, stdout: Seq<char>, windows: bool) -> Option<
    Seq<char>,
> {
    if success && trim(stdout).len() > 0 {
        Some(
            join_path(
                separator_on(windows),
                trim(stdout),
                if windows {
                    "agentseek.exe"@
                } else {
                    "agentseek"@
                },
            ),
        )
    } else {
        None
    }
}

/// The place of `agentseek` among the tools of `uv`, by what `uv` printed.
pub fn agentseek_candidate(success: bool, stdout: &str, windows: bool) -> (r: Option<String>)
    ensures
        opt_text(r) == agentseek_place(success, stdout@, windows),
{
    if !success {
        return None;
    }
    let bin_dir: String = trimmed(stdout);
    if bin_dir.as_str().is_empty() {
        return None;
    }
    Some(
        path_below(
            path_separator(windows),
            bin_dir.as_str(),
            if windows {
                "agentseek.exe"
            } else {
                "agentseek"
            },
        ),
    )
}

/// The `agentseek` that is called: the one that the user names, the one among the tools of `uv`, the
/// one that the shell finds, or just the name.
pub fn agentseek_program(
    named: Option<String>,
    installed: Option<String>,
    resolved: Option<String>,
) -> (out: String)
    ensures
        Some(out@) == (if named is Some {
            opt_text(named)
        } else if installed is Some {
            opt_text(installed)
        } else if resolved is Some {
            opt_text(resolved)
        } else {
            Some("agentseek"@)
        }),
{
    match named {
        Some(program) => program,
        None => match installed {
            Some(program) => program,
            None => match resolved {
                Some(program) => program,
                None => owned("agentseek"),
            },
        },
    }
}

/// How `agentseek` is called: a program and the arguments that stand before all others.
pub open spec fn parts_of_cli(
    named: Option<Seq<char>>,
    checkout: Option<Seq<char>>,
    installed: Option<Seq<char>>,
    resolved: Option<Seq<char>>,
) -> (Seq<char>, Seq<Seq<char>>) {
    match (named, checkout, installed, resolved) {
        (Some(program), _, _, _) => (program, seq![]),
        (None, Some(repo), _, _) => ("uv"@, seq!["run"@, "--project"@, repo, "agentseek"@]),
        (None, None, Some(program), _) => (program, seq![]),
        (None, None, None, Some(program)) => (program, seq![]),
        (None, None, None, None) => ("uvx"@, seq!["agentseek"@]),
    }
}

/// How `agentseek` is called: as the user names it, from the checkout that is worked on, as the
/// executable that is found among the tools of `uv` or by the shell, or through `uvx`.
pub fn cli_parts(
    named: Option<String>,
    checkout: Option<String>,
    installed: Option<String>,
    resolved: Option<String>,
) -> (r: (String, Vec<String>))
    ensures
        (r.0@, texts(r.1@)) == parts_of_cli(
            opt_text(named),
            opt_text(checkout),
            opt_text(installed),
            opt_text(resolved),
        ),
{
    let mut args: Vec<String> = Vec::new();
    let program: String = match (named, checkout, installed, resolved) {
        (Some(program), _, _, _) => program,
        (None, Some(repo), _, _) => {
            args.push(owned("run"));
            args.push(owned("--project"));
            args.push(repo);
            args.push(owned("agentseek"));
            owned("uv")
        },
        (None, None, Some(program), _) => program,
        (None, None, None, Some(program)) => program,
        (None, None, None, None) => {
            args.push(owned("agentseek"));
            owned("uvx")
        },
    };
    proof {
        let parts = parts_of_cli(
            opt_text(named),
            opt_text(checkout),
            opt_text(installed),
            opt_text(resolved),
        );
        assert(texts(args@) =~= parts.1);
    }
    (program, args)
}

/// `AGENTSEEK_CLI` overrides every other way to call `agentseek`, and an executable is called
/// without arguments of its own.
pub proof fn law_named_cli_wins(
    program: Seq<char>,
    checkout: Option<Seq<char>>,
    installed: Option<Seq<char>>,
    resolved: Option<Seq<char>>,
)
    ensures
        parts_of_cli(Some(program), checkout, installed, resolved) == (
            program,
            Seq::<Seq<char>>::empty(),
        ),
        parts_of_cli(None, None, Some(program), resolved) == (program, Seq::<Seq<char>>::empty()),
{
}

} // verus!
