//! What holds of orders and of the ends of lists, and of what is told of storages and processes.
use vstd::prelude::*;

use crate::env::EnvVariableView;
use crate::log_pages::{law_page_is_the_start_of_what_matches, matching, numbers_differ, numbers_fit};
use crate::logs::{last_n, least_sequence};
use crate::model::LogEntryView;
use crate::order::{law_sorted_logs, sorted_logs, text_before};
use crate::paths::{join_path, separator_on};
use crate::processes::{pids_in, pids_of_all};
use crate::projects::{port_writes, ProjectFilesView};
use crate::search::{contains, ends_with};
use crate::split::lines;
use crate::storage::{
    client_args, counts_agree, counts_message, environment_args, not_ready_message, StoreCounts,
};
use crate::tools::shown_command;
use crate::vault::{fault_message, modified_count, VaultFault};

verus! {

// ---------------------------------------------------------------------------------------------
// Orders
// ---------------------------------------------------------------------------------------------
/// The first character in which two texts differ decides which stands before the other, and a text
/// stands before those that go on behind it.
pub proof fn law_order_of_texts(start: Seq<char>, a: char, x: Seq<char>, b: char, y: Seq<char>)
    requires
        a < b,
    ensures
        text_before(start + seq![a] + x, start + seq![b] + y),
        !text_before(start + seq![b] + y, start + seq![a] + x),
        text_before(start, start + seq![a] + x),
        !text_before(start + seq![a] + x, start),
        !text_before(start, start),
    decreases start.len(),
{
    let s = start + seq![a] + x;
    let t = start + seq![b] + y;
    if start.len() == 0 {
        assert(s[0] == a && t[0] == b);
    } else {
        let rest = start.skip(1);
        law_order_of_texts(rest, a, x, b, y);
        assert(s[0] == start[0] && t[0] == start[0]);
        assert(s.skip(1) =~= rest + seq![a] + x);
        assert(t.skip(1) =~= rest + seq![b] + y);
    }
}

/// The entries of a log stand in the order of their times; those of one time in the order of their
/// numbers; and those of one time and number in the order of their ids.
pub proof fn law_order_of_the_log(list: Seq<LogEntryView>, i: int, j: int)
    requires
        0 <= i < j < list.len(),
    ensures
        ({
            let logs = sorted_logs(list);
            &&& logs.len() == list.len()
            &&& logs[i].created_at <= logs[j].created_at
            &&& logs[i].created_at == logs[j].created_at ==> logs[i].sequence <= logs[j].sequence
            &&& logs[i].created_at == logs[j].created_at && logs[i].sequence == logs[j].sequence
                ==> !text_before(logs[j].id, logs[i].id)
        }),
{
    let logs = sorted_logs(list);
    law_sorted_logs(list);
    logs.to_multiset_ensures();
    list.to_multiset_ensures();
    assert(logs.len() == list.len());
    assert(!crate::order::log_before(logs[j], logs[i]));
}

/// What a query of the log matches is in the order of the numbers: falling, and rising where the query
/// has a lower bound. It holds exactly the entries between the bounds.
pub proof fn law_queries_of_the_log(
    stored: Seq<LogEntryView>,
    before: Option<u64>,
    after: Option<u64>,
    i: int,
    j: int,
    k: int,
)
    requires
        numbers_differ(stored),
        numbers_fit(stored),
        before matches Some(n) ==> n < 0x8000_0000_0000_0000,
        after matches Some(n) ==> n < 0x8000_0000_0000_0000,
    ensures
        ({
            let found = matching(stored, before, after);
            &&& 0 <= i < j < found.len() && after is None ==> found[i].sequence > found[j].sequence
            &&& 0 <= i < j < found.len() && after is Some ==> found[i].sequence < found[j].sequence
            &&& 0 <= k < stored.len() ==> (found.contains(stored[k]) <==> (before matches Some(n)
                ==> stored[k].sequence < n) && (after matches Some(n) ==> stored[k].sequence > n))
            &&& 0 <= i < found.len() ==> stored.contains(found[i])
        }),
{
    let found = matching(stored, before, after);
    let fits = crate::log_pages::between(before, after);
    let kept = stored.filter(fits);
    law_page_is_the_start_of_what_matches(stored, before, after, 1);
    found.to_multiset_ensures();
    kept.to_multiset_ensures();
    assert forall|m: int| 0 <= m < found.len() implies stored.contains(#[trigger] found[m])
        && found[m].sequence < 0x8000_0000_0000_0000 by {
        assert(found.contains(found[m]));
        assert(found.to_multiset().count(found[m]) > 0);
        assert(kept.to_multiset().count(found[m]) > 0);
        assert(kept.contains(found[m]));
        stored.lemma_filter_contains_rev(fits, found[m]);
        let at = choose|at: int| 0 <= at < stored.len() && stored[at] == found[m];
        assert(stored[at].sequence < 0x8000_0000_0000_0000);
    }
    if 0 <= i < j < found.len() {
        assert(crate::log_pages::comes_before(found[i], found[j], after is Some));
    }
    if 0 <= k < stored.len() {
        assert(stored[k].sequence < 0x8000_0000_0000_0000);
        if fits(stored[k]) {
            stored.lemma_filter_contains(fits, k);
            assert(kept.to_multiset().count(stored[k]) > 0);
            assert(found.to_multiset().count(stored[k]) > 0);
            assert(found.contains(stored[k]));
        }
        if found.contains(stored[k]) {
            assert(found.to_multiset().count(stored[k]) > 0);
            assert(kept.to_multiset().count(stored[k]) > 0);
            assert(kept.contains(stored[k]));
            let at = choose|at: int| 0 <= at < kept.len() && kept[at] == stored[k];
            stored.lemma_filter_pred(fits, at);
        }
    }
}

/// The end of a list is the whole list where it is short enough, and else its last members in their
/// order.
pub proof fn law_end_of_a_list(logs: Seq<LogEntryView>, n: nat, i: int)
    ensures
        logs.len() <= n ==> last_n(logs, n) == logs,
        logs.len() > n ==> last_n(logs, n).len() == n,
        logs.len() > n && 0 <= i < n ==> last_n(logs, n)[i] == logs[logs.len() - n + i],
{
}

/// The least number of a list is that of one of its entries, and none has a lower one.
pub proof fn law_least_number(logs: Seq<LogEntryView>)
    ensures
        match least_sequence(logs) {
            Some(n) => (exists|i: int| 0 <= i < logs.len() && (#[trigger] logs[i]).sequence == n)
                && forall|i: int| 0 <= i < logs.len() ==> n <= (#[trigger] logs[i]).sequence,
            None => logs.len() == 0,
        },
    decreases logs.len(),
{
    if logs.len() > 0 {
        let rest = logs.drop_last();
        law_least_number(rest);
        let n = least_sequence(logs)->0;
        assert forall|i: int| 0 <= i < logs.len() implies n <= (#[trigger] logs[i]).sequence by {
            if i < rest.len() {
                assert(rest[i] == logs[i]);
            }
        }
        if rest.len() > 0 && least_sequence(rest) == Some(n) {
            let i = choose|i: int| 0 <= i < rest.len() && (#[trigger] rest[i]).sequence == n;
            assert(logs[i].sequence == n);
        } else {
            assert(logs[logs.len() - 1].sequence == n);
        }
    }
}

/// The modified variables are counted, and no others.
pub proof fn law_modified_variables_are_counted(entries: Seq<EnvVariableView>)
    ensures
        modified_count(entries) == entries.filter(|e: EnvVariableView| e.modified).len(),
    decreases entries.len(),
{
    reveal(Seq::filter);
    if entries.len() > 0 {
        law_modified_variables_are_counted(entries.drop_last());
    }
}

// ---------------------------------------------------------------------------------------------
// What is told
// ---------------------------------------------------------------------------------------------
/// The processes of several outputs are those of each, one behind the other.
pub proof fn law_every_output_is_read(outputs: Seq<Seq<char>>, output: Seq<char>)
    ensures
        pids_of_all(Seq::<Seq<char>>::empty()).len() == 0,
        pids_of_all(outputs.push(output)) == pids_of_all(outputs) + pids_in(lines(output)),
{
    assert(outputs.push(output).drop_last() =~= outputs);
}

/// A command is shown as its program and its arguments, with a space before each argument.
pub proof fn law_commands_are_shown_whole(
    program: Seq<char>,
    args: Seq<Seq<char>>,
    argument: Seq<char>,
)
    ensures
        shown_command(program, Seq::<Seq<char>>::empty()) == program,
        shown_command(program, args.push(argument)) == shown_command(program, args) + " "@
            + argument,
{
    let none = Seq::<Seq<char>>::empty();
    assert(seq![program] + none =~= seq![program]);
    let all = seq![program] + args.push(argument);
    assert(all.drop_last() =~= seq![program] + args);
    assert(all.last() == argument);
}

/// Two storages agree exactly where they hold as many instances, variables and entries; what is told
/// where they do not names each count.
pub proof fn law_counts_are_compared(a: StoreCounts, b: StoreCounts)
    ensures
        counts_agree(a, b) <==> a.instances == b.instances && a.vault == b.vault && a.logs == b.logs,
        counts_message(a, b) == "Instances "@ + crate::number::decimal(a.instances as nat) + " -> "@
            + crate::number::decimal(b.instances as nat) + ", Vault "@ + crate::number::decimal(
            a.vault as nat,
        ) + " -> "@ + crate::number::decimal(b.vault as nat) + ", Logs "@ + crate::number::decimal(
            a.logs as nat,
        ) + " -> "@ + crate::number::decimal(b.logs as nat),
{
}

/// A storage that cannot be written tells its own error where it has one.
pub proof fn law_storages_tell_their_errors(error: Seq<char>)
    ensures
        not_ready_message(Some(error)) == error,
        not_ready_message(None).len() > 0,
{
    reveal_strlit("Desktop storage not writable, please fix storage connection first");
    assert(not_ready_message(None)[0] == 'D');
}

/// The environment of the storage is made in the directory that was asked for, and the client is
/// installed for the interpreter that was asked for.
pub proof fn law_environment_of_the_storage(directory: Seq<char>, python: Seq<char>)
    ensures
        environment_args(directory)[0] == "venv"@ && environment_args(directory)[1] == directory
            && environment_args(directory)[2] == "--python"@ && environment_args(directory)[3]
            == "3.12"@ && environment_args(directory).len() == 4,
        client_args(python)[0] == "pip"@ && client_args(python)[1] == "install"@ && client_args(
            python,
        )[2] == "--python"@ && client_args(python)[3] == python && client_args(python)[4]
            == "pyseekdb==1.4.0"@ && client_args(python).len() == 5,
{
}

/// What is told of a list that the vault refuses names the variable that came twice.
pub proof fn law_refused_names_are_told(key: Seq<char>)
    ensures
        ends_with(fault_message(VaultFault::DuplicateKey(key)), key),
        fault_message(VaultFault::EmptyKey) == "Environment variable name cannot be empty"@,
{
    let said = fault_message(VaultFault::DuplicateKey(key));
    assert(said.skip(said.len() - key.len()) =~= key);
}

/// Paths are written with a backslash on Windows and with a slash elsewhere.
pub proof fn law_separators()
    ensures
        separator_on(true) == '\\',
        separator_on(false) == '/',
{
}

/// Bringing the files of a project in step writes its manifest exactly where that changes it, and its
/// compose file exactly where that changes it.
pub proof fn law_files_are_brought_in_step(
    root: Seq<char>,
    lifecycle: Seq<char>,
    compose: Seq<char>,
    env: Seq<EnvVariableView>,
    separator: char,
)
    ensures
        ({
            let files = ProjectFilesView {
                lifecycle: Some(lifecycle),
                compose: Some(compose),
                frontend_example: None,
                frontend_env: None,
            };
            let manifest = crate::commands::commands_in_step(
                crate::lifecycle::manifest_in_step(lifecycle, env),
                env,
            );
            let mapped = crate::compose::compose_in_step(compose, env);
            let writes = port_writes(root, files, env, separator);
            let one = (join_path(separator, root, ".agentseek/lifecycle.toml"@), manifest);
            let two = (join_path(separator, root, "docker-compose.yml"@), mapped);
            &&& manifest != lifecycle && mapped != compose ==> writes == seq![one, two]
            &&& manifest != lifecycle && mapped == compose ==> writes == seq![one]
            &&& manifest == lifecycle && mapped != compose ==> writes == seq![two]
            &&& manifest == lifecycle && mapped == compose ==> writes.len() == 0
        }),
{
    let files = ProjectFilesView {
        lifecycle: Some(lifecycle),
        compose: Some(compose),
        frontend_example: None,
        frontend_env: None,
    };
    let manifest = crate::commands::commands_in_step(
        crate::lifecycle::manifest_in_step(lifecycle, env),
        env,
    );
    let mapped = crate::compose::compose_in_step(compose, env);
    let writes = port_writes(root, files, env, separator);
    let one = (join_path(separator, root, ".agentseek/lifecycle.toml"@), manifest);
    let two = (join_path(separator, root, "docker-compose.yml"@), mapped);
    if manifest != lifecycle && mapped != compose {
        assert(writes =~= seq![one, two]);
    } else if manifest != lifecycle {
        assert(writes =~= seq![one]);
    } else if mapped != compose {
        assert(writes =~= seq![two]);
    }
}

} // verus!
