//! What holds of the log, of instances and of the storage, as they are shown and kept.
use vstd::prelude::*;

use crate::env::{secret_key, EnvVariableView};
use crate::instances::{
    new_instance_fault, new_record, position_at_byte, target_fault, target_path, with_info_line,
    without_instance, without_runtime_logs, TargetFacts,
};
use crate::logs::{
    capped, entry_view, fitting_start, law_redacted_text_holds_no_secret, lemma_fitting_start,
    next_sequence, redacted,
};
use crate::model::{InstanceRecordView, LogEntryView};
use crate::number::decimal;
use crate::order::sorted_texts;
use crate::paths::join_path;
use crate::runtime_logs::{
    behind_line, compacted, control_len, exception_summary, last_lines, level_of, plain_text,
    records,
};
use crate::search::{
    at, behind_last, contains, ends_with, find, lemma_at_char, lemma_find, lemma_first_char,
    starts_with, trim, trim_end_of, trim_start,
};
use crate::split::{lines, replace_all};
use crate::storage::{
    allowed_days, completed_config, described_storage, greatest_sequence, old_backups, retry_delay,
    same_target, sqlite_directory, with_database, with_startup_path, PathFacts, StorageConfigView,
};
use crate::text::{byte_len, is_ascii_letter, is_space, join};

verus! {

// ---------------------------------------------------------------------------------------------
// Texts of the log
// ---------------------------------------------------------------------------------------------
/// A text of at most 65536 bytes stands in the log as it is. Of a longer one the longest start that
/// fits stands there, with a note behind it.
pub proof fn law_long_texts_are_cut(s: Seq<char>)
    ensures
        byte_len(s) <= 65_536 ==> capped(s) == s,
        byte_len(s) > 65_536 ==> exists|n: int|
            #![trigger s.take(n)]
            0 <= n < s.len() && capped(s) == s.take(n) + "\n...[log content truncated]"@ && byte_len(
                s.take(n),
            ) <= 65_536 && byte_len(s.take(n + 1)) > 65_536,
{
    if byte_len(s) > 65_536 {
        lemma_fitting_start(s, 65_536);
        lemma_fitting_place(s, 65_536);
    }
}

proof fn lemma_fitting_place(s: Seq<char>, max: nat)
    requires
        byte_len(s) > max,
    ensures
        exists|n: int|
            #![trigger s.take(n)]
            0 <= n < s.len() && fitting_start(s, max) == s.take(n) && byte_len(s.take(n)) <= max
                && byte_len(s.take(n + 1)) > max,
    decreases s.len(),
{
    let rest = s.drop_last();
    if s.len() == 0 {
        assert(byte_len(s) == 0);
    } else if byte_len(rest) <= max {
        let n = s.len() - 1;
        assert(s.take(n) =~= rest);
        assert(s.take(n + 1) =~= s);
        assert(fitting_start(rest, max) == rest);
        assert(fitting_start(s, max) == s.take(n));
    } else {
        lemma_fitting_place(rest, max);
        let n = choose|n: int|
            #![trigger rest.take(n)]
            0 <= n < rest.len() && fitting_start(rest, max) == rest.take(n) && byte_len(
                rest.take(n),
            ) <= max && byte_len(rest.take(n + 1)) > max;
        assert(rest.take(n) =~= s.take(n));
        assert(rest.take(n + 1) =~= s.take(n + 1));
        assert(fitting_start(s, max) == s.take(n));
    }
}

/// The value of a variable of the vault that is a secret by its name and has four bytes or more is
/// not in a redacted text, unless it holds a star itself. A text that holds no such value stays.
pub proof fn law_secrets_are_hidden(vault: Seq<EnvVariableView>, text: Seq<char>, k: int)
    ensures
        0 <= k < vault.len() && secret_key(vault[k].key) && byte_len(vault[k].value) >= 4
            && !vault[k].value.contains('*') ==> !contains(redacted(vault, text), vault[k].value),
        (forall|i: int|
            0 <= i < vault.len() && secret_key((#[trigger] vault[i]).key) && byte_len(
                vault[i].value,
            ) >= 4 ==> !contains(text, vault[i].value)) ==> redacted(vault, text) == text,
        vault.len() == 1 && secret_key(vault[0].key) && byte_len(vault[0].value) >= 4 ==> redacted(
            vault,
            text,
        ) == replace_all(text, vault[0].value, "******"@),
    decreases vault.len(),
{
    if 0 <= k < vault.len() && secret_key(vault[k].key) && byte_len(vault[k].value) >= 4
        && !vault[k].value.contains('*') {
        law_redacted_text_holds_no_secret(vault, text, k, 0);
    }
    if forall|i: int|
        0 <= i < vault.len() && secret_key((#[trigger] vault[i]).key) && byte_len(vault[i].value)
            >= 4 ==> !contains(text, vault[i].value) {
        if vault.len() > 0 {
            let rest = vault.drop_last();
            assert forall|i: int|
                0 <= i < rest.len() && secret_key((#[trigger] rest[i]).key) && byte_len(
                    rest[i].value,
                ) >= 4 implies !contains(text, rest[i].value) by {
                assert(rest[i] == vault[i]);
            }
            law_secrets_are_hidden(rest, text, -1);
            let last = vault[vault.len() - 1];
            if secret_key(last.key) && byte_len(last.value) >= 4 {
                lemma_find(text, last.value);
            }
        }
    }
    if vault.len() == 1 {
        assert(vault.drop_last() =~= Seq::<EnvVariableView>::empty());
        assert(redacted(vault.drop_last(), text) == text);
    }
}

/// An entry of the log says what it was made for: whose it is, of what kind, when it came and as
/// which number. Message and command are redacted, and cut where they are too long.
pub proof fn law_entries_say_what_they_were_made_for(
    vault: Seq<EnvVariableView>,
    instance_id: Option<Seq<char>>,
    instance_name: Seq<char>,
    category: Seq<char>,
    level: Seq<char>,
    message: Seq<char>,
    command: Option<Seq<char>>,
    now: u64,
    sequence: u64,
)
    ensures
        ({
            let entry = entry_view(
                vault,
                instance_id,
                instance_name,
                category,
                level,
                message,
                command,
                now,
                sequence,
            );
            &&& entry.instance_id == instance_id && entry.instance_name == instance_name
            &&& entry.category == category && entry.level == level
            &&& entry.created_at == now && entry.sequence == sequence
            &&& entry.id == "log-"@ + decimal(now as nat) + "-"@ + decimal(sequence as nat)
            &&& byte_len(redacted(vault, message)) <= 65_536 ==> entry.message == redacted(
                vault,
                message,
            )
            &&& command is None ==> entry.command is None
            &&& command is Some && byte_len(redacted(vault, command->0)) <= 65_536
                ==> entry.command == Some(redacted(vault, command->0))
        }),
        sequence < u64::MAX ==> next_sequence(sequence) == sequence + 1,
{
}

// ---------------------------------------------------------------------------------------------
// What instances print
// ---------------------------------------------------------------------------------------------
/// A text without an escape stays as it is.
proof fn lemma_plain_text(s: Seq<char>)
    requires
        forall|k: int| 0 <= k < s.len() ==> s[k] != '\u{1b}',
    ensures
        plain_text(s) == s,
    decreases s.len(),
{
    if s.len() > 0 {
        assert forall|k: int| 0 <= k < s.skip(1).len() implies s.skip(1)[k] != '\u{1b}' by {
            assert(s.skip(1)[k] == s[k + 1]);
        }
        lemma_plain_text(s.skip(1));
        assert(seq![s[0]] + s.skip(1) =~= s);
    }
}

proof fn lemma_control_len(params: Seq<char>, rest: Seq<char>)
    requires
        forall|k: int| 0 <= k < params.len() ==> !is_ascii_letter(#[trigger] params[k]),
        rest.len() > 0,
        is_ascii_letter(rest[0]),
    ensures
        control_len(params + rest) == params.len() + 1,
    decreases params.len(),
{
    if params.len() == 0 {
        assert(params + rest =~= rest);
    } else {
        assert((params + rest)[0] == params[0]);
        assert((params + rest).skip(1) =~= params.skip(1) + rest);
        assert forall|k: int| 0 <= k < params.skip(1).len() implies !is_ascii_letter(
            #[trigger] params.skip(1)[k],
        ) by {
            assert(params.skip(1)[k] == params[k + 1]);
        }
        lemma_control_len(params.skip(1), rest);
    }
}

/// A text without an escape stays as it is, and of a text with a control sequence in it just the
/// sequence goes: the escape, the bracket, and all up to the first letter.
pub proof fn law_control_sequences_go(
    before: Seq<char>,
    params: Seq<char>,
    letter: char,
    behind: Seq<char>,
)
    requires
        forall|k: int| 0 <= k < before.len() ==> before[k] != '\u{1b}',
        forall|k: int| 0 <= k < params.len() ==> !is_ascii_letter(#[trigger] params[k]),
        is_ascii_letter(letter),
    ensures
        plain_text(before) == before,
        plain_text(before + seq!['\u{1b}', '['] + params + seq![letter] + behind) == before
            + plain_text(behind),
    decreases before.len(),
{
    lemma_plain_text(before);
    let s = before + seq!['\u{1b}', '['] + params + seq![letter] + behind;
    if before.len() == 0 {
        let rest = params + (seq![letter] + behind);
        assert(s.skip(2) =~= rest);
        lemma_control_len(params, seq![letter] + behind);
        assert(s[0] == '\u{1b}' && s[1] == '[');
        assert(s.skip(2 + params.len() as int + 1) =~= behind);
        assert(before + plain_text(behind) =~= plain_text(behind));
    } else {
        let less = before.skip(1);
        assert forall|k: int| 0 <= k < less.len() implies less[k] != '\u{1b}' by {
            assert(less[k] == before[k + 1]);
        }
        law_control_sequences_go(less, params, letter, behind);
        assert(s[0] == before[0]);
        assert(s.skip(1) =~= less + seq!['\u{1b}', '['] + params + seq![letter] + behind);
        assert(seq![before[0]] + (less + plain_text(behind)) =~= before + plain_text(behind));
    }
}

/// A record is an error where one of these words stands in it, a warning where only `warn` does, and
/// else it informs.
pub proof fn law_levels_of_records(lower: Seq<char>)
    ensures
        ({
            let grave = contains(lower, "traceback"@) || contains(lower, "exception"@) || contains(
                lower,
                "error"@,
            ) || contains(lower, "failed"@) || contains(lower, "fatal"@) || contains(
                lower,
                "panic"@,
            ) || contains(lower, "cannot connect to the docker daemon"@) || contains(
                lower,
                "is the docker daemon running"@,
            );
            &&& grave ==> level_of(lower) == "error"@
            &&& !grave && contains(lower, "warn"@) ==> level_of(lower) == "warning"@
            &&& !grave && !contains(lower, "warn"@) ==> level_of(lower) == "info"@
        }),
{
    reveal_strlit("warning");
    reveal_strlit("warn");
    if contains(lower, "warning"@) {
        let i = choose|i: int| at(lower, "warning"@, i);
        assert(lower.subrange(i, i + 4) =~= lower.subrange(i, i + 7).subrange(0, 4));
        assert("warning"@.subrange(0, 4) =~= "warn"@);
        assert(at(lower, "warn"@, i));
    }
}

/// Every complete line of the output is read, in its order and without its ending, each with the
/// offset behind it. Reading stops at the first incomplete line, which counts only at the end.
pub proof fn law_complete_lines_are_read(rows: Seq<Seq<char>>, offset: u64, partial: bool)
    ensures
        (forall|k: int| 0 <= k < rows.len() ==> ends_with(#[trigger] rows[k], "\n"@)) || partial
            ==> records(rows, offset, partial).len() == rows.len(),
        forall|k: int|
            0 <= k < records(rows, offset, partial).len() ==> k < rows.len() && (
            #[trigger] records(rows, offset, partial)[k]).0 == trim_end_of(rows[k], "\r\n"@) && (
            partial || ends_with(rows[k], "\n"@)),
        records(rows, offset, partial).len() < rows.len() ==> !partial && !ends_with(
            rows[records(rows, offset, partial).len() as int],
            "\n"@,
        ),
        rows.len() > 0 && records(rows, offset, partial).len() > 0 && offset + byte_len(rows[0])
            <= u64::MAX ==> records(rows, offset, partial)[0].1 == offset + byte_len(rows[0]),
    decreases rows.len(),
{
    if rows.len() > 0 && (partial || ends_with(rows[0], "\n"@)) {
        let next = behind_line(offset, rows[0]);
        let rest = rows.skip(1);
        law_complete_lines_are_read(rest, next, partial);
        let all = records(rows, offset, partial);
        let less = records(rest, next, partial);
        if forall|k: int| 0 <= k < rows.len() ==> ends_with(#[trigger] rows[k], "\n"@) {
            assert forall|k: int| 0 <= k < rest.len() implies ends_with(
                #[trigger] rest[k],
                "\n"@,
            ) by {
                assert(rest[k] == rows[k + 1]);
            }
        }
        assert forall|k: int| 0 <= k < all.len() implies k < rows.len() && (#[trigger] all[k]).0
            == trim_end_of(rows[k], "\r\n"@) && (partial || ends_with(rows[k], "\n"@)) by {
            if k > 0 {
                assert(all[k] == less[k - 1]);
                assert(rest[k - 1] == rows[k]);
            }
        }
        if all.len() < rows.len() {
            assert(rest[less.len() as int] == rows[all.len() as int]);
        }
    }
}

/// The report of a failed call starts a traceback, of which nothing is logged: blank lines, the
/// opening and every line that starts with white space are left out. Its last line, which names the
/// exception, is logged in short and ends it.
pub proof fn law_tracebacks_are_left_out(value: Seq<char>, lower: Seq<char>, suppress: bool)
    requires
        forall|k: int| 0 <= k < value.len() ==> value[k] != '\u{1b}',
    ensures
        contains(lower, "tool.call.error"@) ==> compacted(value, lower, suppress).1 && (compacted(
            value,
            lower,
            suppress,
        ).0 matches Some(text) && starts_with(text, "Tool call failed: "@)),
        !contains(lower, "tool.call.error"@) && !suppress ==> compacted(value, lower, suppress) == (
            Some(value),
            false,
        ),
        !contains(lower, "tool.call.error"@) && suppress && (contains(
            lower,
            "traceback (most recent call last)"@,
        ) || trim(value).len() == 0) ==> compacted(value, lower, suppress) == (
            None::<Seq<char>>,
            true,
        ),
        !contains(lower, "tool.call.error"@) && suppress && value.len() > 0 && is_space(value[0])
            && !contains(lower, "tool.call.start"@) && !contains(lower, "loop.step"@) && !contains(
            lower,
            "session.run."@,
        ) && !starts_with(trim_start(lower), "info:"@) ==> compacted(value, lower, suppress) == (
            None::<Seq<char>>,
            true,
        ),
        !contains(lower, "tool.call.error"@) && suppress && !contains(
            lower,
            "traceback (most recent call last)"@,
        ) && trim(value).len() > 0 && exception_summary(value) is Some ==> compacted(
            value,
            lower,
            suppress,
        ) == (exception_summary(value), false),
        !contains(lower, "tool.call.error"@) && suppress && trim(value).len() > 0
            && exception_summary(value) is None && !contains(
            lower,
            "traceback (most recent call last)"@,
        ) && (contains(lower, "tool.call.start"@) || contains(lower, "loop.step"@) || contains(
            lower,
            "session.run."@,
        ) || starts_with(trim_start(lower), "info:"@)) ==> compacted(value, lower, suppress) == (
            Some(value),
            false,
        ),
{
    reveal_strlit("Tool call failed: ");
    lemma_plain_text(value);
    if contains(lower, "tool.call.error"@) {
        let text = compacted(value, lower, suppress).0->0;
        let n = "Tool call failed: "@.len() as int;
        assert(text.subrange(0, n) =~= "Tool call failed: "@);
    }
}

/// The line `module.SomeError: what happened` is summed up by the type without its module and what
/// it says. A line that starts with white space, or whose type is no exception, is not summed up.
pub proof fn law_exceptions_are_summed_up(
    module: Seq<char>,
    kind: Seq<char>,
    detail: Seq<char>,
)
    requires
        !contains(module, ":"@),
        !contains(kind, ":"@),
        !contains(kind, "."@),
        module.len() > 0,
        !is_space(module[0]),
        ends_with(kind, "Error"@) || ends_with(kind, "Exception"@),
        kind != "TimeoutError"@,
        detail.len() > 0,
        !is_space(detail[0]),
        !is_space(detail.last()),
    ensures
        exception_summary(module + "."@ + kind + ": "@ + detail) == Some(
            "Failure reason: "@ + kind + ": "@ + detail,
        ),
{
    reveal_strlit(":");
    reveal_strlit(".");
    reveal_strlit(": ");
    assert(":"@ =~= seq![':']);
    assert("."@ =~= seq!['.']);
    let name = module + "."@ + kind;
    let t = name + ": "@ + detail;
    assert(module + "."@ + kind + ": "@ + detail =~= t);
    let n = name.len() as int;
    assert(t[0] == module[0]);
    assert(t.last() == detail.last());
    assert(trim_start(t) == t);
    assert(crate::search::trim_end(t) == t);
    assert forall|j: int| 0 <= j < n implies t[j] != ':' by {
        if j < module.len() {
            assert(t[j] == module[j]);
            lemma_at_char(module, ':', j);
            assert(!at(module, ":"@, j));
        } else if j > module.len() {
            assert(t[j] == kind[j - module.len() - 1]);
            lemma_at_char(kind, ':', j - module.len() - 1);
            assert(!at(kind, ":"@, j - module.len() - 1));
        }
    }
    assert(t[n] == ':');
    lemma_first_char(t, ':', n);
    assert(t.take(n) =~= name);
    let rest = t.skip(n + 1);
    assert(rest =~= seq![' '] + detail);
    assert(rest.skip(1) =~= detail);
    assert(trim_start(detail) == detail);
    assert(trim_start(rest) == detail);
    assert(crate::search::trim_end(detail) == detail);
    assert(name[module.len() as int] == '.');
    assert forall|j: int| module.len() < j < name.len() implies name[j] != '.' by {
        assert(name[j] == kind[j - module.len() - 1]);
        lemma_at_char(kind, '.', j - module.len() - 1);
        assert(!at(kind, "."@, j - module.len() - 1));
    }
    crate::search::lemma_last_char(name, '.', module.len() as int);
    assert(name.skip(module.len() as int + 1) =~= kind);
    assert(behind_last(name, "."@) == kind);
}

/// The end of a text is its last lines, joined; a text with no more lines than that is whole.
pub proof fn law_last_lines(s: Seq<char>, n: nat)
    ensures
        lines(s).len() <= n ==> last_lines(s, n) == join(lines(s), "\n"@),
        lines(s).len() > n ==> last_lines(s, n) == join(
            lines(s).subrange(lines(s).len() - n, lines(s).len() as int),
            "\n"@,
        ),
{
    if lines(s).len() > n {
        assert(lines(s).skip(lines(s).len() - n) =~= lines(s).subrange(
            lines(s).len() - n,
            lines(s).len() as int,
        ));
    }
}

// ---------------------------------------------------------------------------------------------
// Instances
// ---------------------------------------------------------------------------------------------
/// An instance gets a directory of its trimmed name directly below the parent, exactly where that
/// name is not blank, is neither `.` nor `..`, and holds no separator of paths and no zero.
pub proof fn law_directory_of_an_instance(parent: Seq<char>, name: Seq<char>, separator: char)
    ensures
        ({
            let n = trim(name);
            let fits = n.len() > 0 && n != "."@ && n != ".."@ && !n.contains('/') && !n.contains(
                '\\',
            ) && !n.contains('\0');
            &&& fits ==> target_path(parent, name, separator) == Ok::<Seq<char>, Seq<char>>(
                join_path(separator, parent, n),
            )
            &&& !fits ==> target_path(parent, name, separator) is Err
            &&& fits && parent.len() > 0 && parent.last() != '/' && separator == '/' ==> target_path(
                parent,
                name,
                separator,
            ) == Ok::<Seq<char>, Seq<char>>(parent + "/"@ + n)
        }),
{
    reveal_strlit("/");
    let n = trim(name);
    if n.contains('/') {
        let k = choose|k: int| 0 <= k < n.len() && n[k] == '/';
        assert(crate::instances::splits_paths(n[k]));
    }
    if n.contains('\\') {
        let k = choose|k: int| 0 <= k < n.len() && n[k] == '\\';
        assert(crate::instances::splits_paths(n[k]));
    }
    if n.contains('\0') {
        let k = choose|k: int| 0 <= k < n.len() && n[k] == '\0';
        assert(crate::instances::splits_paths(n[k]));
    }
    if parent.len() > 0 && parent.last() != '/' {
        assert(parent.push('/') + n =~= parent + "/"@ + n);
    }
}

/// An instance can be made where there is nothing yet or an empty directory, and nowhere else.
pub proof fn law_targets_are_empty(facts: TargetFacts)
    ensures
        target_fault(facts) is None <==> !facts.exists || facts.is_dir && facts.occupied == Ok::<
            bool,
            String,
        >(false),
{
}

/// Deleting an instance deletes the records with its id, and no other; of the log, what it printed
/// while it ran goes, and nothing else does.
pub proof fn law_only_the_instance_goes(
    list: Seq<InstanceRecordView>,
    logs: Seq<LogEntryView>,
    id: Seq<char>,
)
    ensures
        forall|x: InstanceRecordView| #[trigger]
            without_instance(list, id).contains(x) <==> list.contains(x) && x.id != id,
        forall|x: LogEntryView| #[trigger]
            without_runtime_logs(logs, id).contains(x) <==> logs.contains(x) && !(x.instance_id
                == Some(id) && x.category == "runtime"@),
{
    broadcast use Seq::lemma_filter_contains_rev;

    let p = |i: InstanceRecordView| i.id != id;
    let q = |l: LogEntryView| !(l.instance_id == Some(id) && l.category == "runtime"@);
    assert forall|x: InstanceRecordView| #[trigger]
        without_instance(list, id).contains(x) <==> list.contains(x) && x.id != id by {
        if list.contains(x) && x.id != id {
            let k = choose|k: int| 0 <= k < list.len() && list[k] == x;
            list.lemma_filter_contains(p, k);
        }
        if without_instance(list, id).contains(x) {
            let k = choose|k: int|
                0 <= k < without_instance(list, id).len() && without_instance(list, id)[k] == x;
            list.lemma_filter_pred(p, k);
        }
    }
    assert forall|x: LogEntryView| #[trigger]
        without_runtime_logs(logs, id).contains(x) <==> logs.contains(x) && !(x.instance_id == Some(
            id,
        ) && x.category == "runtime"@) by {
        if logs.contains(x) && q(x) {
            let k = choose|k: int| 0 <= k < logs.len() && logs[k] == x;
            logs.lemma_filter_contains(q, k);
        }
        if without_runtime_logs(logs, id).contains(x) {
            let k = choose|k: int|
                0 <= k < without_runtime_logs(logs, id).len() && without_runtime_logs(logs, id)[k]
                    == x;
            logs.lemma_filter_pred(q, k);
        }
    }
}

/// A new instance is refused exactly where its name or its place is blank, or another instance has
/// its name. Its record bears its trimmed name, is being configured, and runs nothing yet.
pub proof fn law_new_instances(
    id: Seq<char>,
    name: Seq<char>,
    template_id: Seq<char>,
    work_dir: Seq<char>,
    env_example: Seq<char>,
    note: Seq<char>,
    now: u64,
    instances: Seq<InstanceRecordView>,
)
    ensures
        new_instance_fault(name, work_dir, instances) is None <==> trim(name).len() > 0 && trim(
            work_dir,
        ).len() > 0 && forall|k: int|
            0 <= k < instances.len() ==> (#[trigger] instances[k]).name != trim(name),
        ({
            let record = new_record(id, name, template_id, work_dir, env_example, note, now);
            &&& record.id == id && record.name == trim(name) && record.project_name == Some(
                trim(name),
            )
            &&& record.template_id == template_id && record.work_dir == work_dir
            &&& record.env_example_path == Some(env_example) && record.env_path is None
            &&& record.note == note && record.created_at == now && record.updated_at == now
            &&& record.status == "configuring"@ && record.deployment_mode == "local"@
            &&& !record.needs_doctor && record.pid is None
            &&& record.agent_url is None && record.ui_url is None && record.studio_url is None
            &&& record.lifecycle_version is None && record.service_endpoints.len() == 0
        }),
{
}

proof fn lemma_bytes_rise(s: Seq<char>, i: int, j: int)
    requires
        0 <= i < j <= s.len(),
    ensures
        byte_len(s.take(i)) < byte_len(s.take(j)),
    decreases j - i,
{
    assert(s.take(j).drop_last() =~= s.take(j - 1));
    if i < j - 1 {
        lemma_bytes_rise(s, i, j - 1);
    }
}

proof fn lemma_position(s: Seq<char>, p: int, i: int)
    requires
        0 <= i <= p <= s.len(),
    ensures
        position_at_byte(s, byte_len(s.take(p)), i) == Some(p),
    decreases p - i,
{
    if i < p {
        lemma_bytes_rise(s, i, p);
        lemma_position(s, p, i + 1);
    }
}

/// A line that names a URL gives the instance that URL, from `http` to the end of the line: that of
/// the studio where the line speaks of one, else that of the frontend, else that of the agent where
/// the line speaks of it or none is known. A line without a URL gives nothing, and no line changes
/// anything else.
pub proof fn law_lines_name_urls(
    instance: InstanceRecordView,
    line: Seq<char>,
    lower: Seq<char>,
    p: int,
)
    ensures
        !contains(lower, "http"@) ==> with_info_line(instance, line, lower) == instance,
        find(lower, "http"@) == Some(p) && p <= line.len() && byte_len(line.take(p)) == byte_len(
            lower.take(p),
        ) ==> ({
            let url = Some(trim(line.skip(p)));
            let out = with_info_line(instance, line, lower);
            let studio = contains(lower, "studio"@) || contains(lower, "langsmith"@);
            let ui = contains(lower, "frontend"@) || contains(lower, " ui"@);
            let agent = contains(lower, "agent"@) || contains(lower, "gateway"@);
            &&& studio ==> out == (InstanceRecordView { studio_url: url, ..instance })
            &&& !studio && ui ==> out == (InstanceRecordView { ui_url: url, ..instance })
            &&& !studio && !ui && (agent || instance.agent_url is None) ==> out == (
            InstanceRecordView { agent_url: url, ..instance })
            &&& !studio && !ui && !agent && instance.agent_url is Some ==> out == instance
        }),
{
    lemma_find(lower, "http"@);
    if find(lower, "http"@) == Some(p) && p <= line.len() && byte_len(line.take(p)) == byte_len(
        lower.take(p),
    ) {
        lemma_position(line, p, 0);
    }
}

// ---------------------------------------------------------------------------------------------
// The storage
// ---------------------------------------------------------------------------------------------
/// A server keeps the name of the database that it was given, unless that is blank.
pub proof fn law_servers_keep_their_database(config: StorageConfigView)
    ensures
        config.mode != "sqlite_embedded"@ && config.mode != "seekdb_embedded"@ && trim(
            config.database,
        ).len() > 0 ==> with_database(config) == config,
        trim(config.database).len() == 0 ==> with_database(config).database
            == "agentseek_desktop"@,
        with_database(config) == (StorageConfigView {
            database: with_database(config).database,
            ..config
        }),
{
}

/// An SQLite database lies in the directory of its configuration, or in that of the application
/// where the configuration names none.
pub proof fn law_directory_of_the_database(data_dir: Seq<char>, config: StorageConfigView)
    ensures
        trim(config.path).len() == 0 ==> sqlite_directory(data_dir, config) == data_dir,
        trim(config.path).len() > 0 ==> sqlite_directory(data_dir, config) == trim(config.path),
{
}

/// Of the backups the five that come last by their names stay, and all others go. A file of another
/// name is never among them.
pub proof fn law_five_backups_stay(names: Seq<Seq<char>>)
    ensures
        ({
            let backups = names.filter(
                |n: Seq<char>| starts_with(n, "before-switch-"@) && ends_with(n, ".json"@),
            );
            let order = sorted_texts(backups);
            &&& order.len() <= 5 ==> old_backups(names).len() == 0
            &&& order.len() > 5 ==> old_backups(names) == order.subrange(0, order.len() - 5)
        }),
{
    let p = |n: Seq<char>| starts_with(n, "before-switch-"@) && ends_with(n, ".json"@);
    assert forall|n: Seq<char>| #[trigger] p(n) == crate::storage::is_backup()(n) by {}
    crate::log_laws::lemma_filter_same(names, p, crate::storage::is_backup());
    let order = sorted_texts(names.filter(p));
    if order.len() > 5 {
        assert(order.take(order.len() - 5) =~= order.subrange(0, order.len() - 5));
    }
}

/// A wanted configuration is completed and not replaced: mode, host, port, tenant and user stay as
/// they were wanted. A password is taken over only where none was given and mode, host and user are
/// those of the current one. The days stay where they are from 1 to 3650, and are seven else. A
/// directory that was named stays; one that was not is that of the application for SQLite, and one
/// below it for SeekDB.
pub proof fn law_wanted_storage_is_completed(
    config: StorageConfigView,
    current: StorageConfigView,
    data_dir: Seq<char>,
    separator: char,
)
    ensures
        ({
            let out = completed_config(config, current, data_dir, separator);
            let same = current.mode == config.mode && current.host == config.host && current.user
                == config.user;
            &&& out.mode == config.mode && out.host == config.host && out.port == config.port
            &&& out.tenant == config.tenant && out.user == config.user && out.setup_completed
            &&& config.password.len() > 0 || !same ==> out.password == config.password
            &&& config.password.len() == 0 && same ==> out.password == current.password
            &&& 1 <= config.runtime_log_retention_days <= 3650 ==> out.runtime_log_retention_days
                == config.runtime_log_retention_days
            &&& !(1 <= config.runtime_log_retention_days <= 3650)
                ==> out.runtime_log_retention_days == 7
            &&& trim(config.path).len() > 0 ==> out.path == config.path
            &&& trim(config.path).len() == 0 && config.mode == "sqlite_embedded"@ ==> out.path
                == data_dir
            &&& trim(config.path).len() == 0 && config.mode == "seekdb_embedded"@ ==> out.path
                == join_path(separator, data_dir, "seekdb"@)
            &&& config.mode != "sqlite_embedded"@ && config.mode != "seekdb_embedded"@ ==> out.path
                == config.path
            &&& out.database == with_database(config).database
        }),
        forall|days: u32| #[trigger] allowed_days(days) <==> 1 <= days <= 3650,
{
    reveal_strlit("sqlite_embedded");
    reveal_strlit("seekdb_embedded");
    assert("sqlite_embedded"@[1] == 'q' && "seekdb_embedded"@[1] == 'e');
}

/// Two configurations mean the same storage only where the mode in effect is the wanted one, and then
/// exactly where all that tells such a storage from another is the same.
pub proof fn law_same_storage(
    current: StorageConfigView,
    mode: Seq<char>,
    config: StorageConfigView,
)
    ensures
        same_target(current, mode, config) ==> mode == config.mode,
        mode == config.mode && mode == "sqlite_embedded"@ ==> (same_target(current, mode, config)
            <==> current.path == config.path),
        mode == config.mode && mode == "seekdb_embedded"@ ==> (same_target(current, mode, config)
            <==> current.path == config.path && current.database == config.database),
        mode == config.mode && mode != "sqlite_embedded"@ && mode != "seekdb_embedded"@ ==> (
        same_target(current, mode, config) <==> current.host == config.host && current.port
            == config.port && current.tenant == config.tenant && current.database
            == config.database && current.user == config.user),
{
    reveal_strlit("sqlite_embedded");
    reveal_strlit("seekdb_embedded");
    assert("sqlite_embedded"@[1] == 'q' && "seekdb_embedded"@[1] == 'e');
}

/// A configuration that names a directory starts with it, but for one that an earlier release chose
/// by mistake; one that names none gets the default of its mode. Nothing else of it changes.
pub proof fn law_directory_of_a_start(
    config: StorageConfigView,
    data_dir: Seq<char>,
    facts: PathFacts,
    separator: char,
)
    ensures
        ({
            let out = with_startup_path(config, data_dir, facts, separator);
            let sqlite = config.mode == "sqlite_embedded"@;
            &&& out == (StorageConfigView { path: out.path, ..config })
            &&& config.path.len() == 0 && sqlite ==> out.path == data_dir
            &&& config.path.len() == 0 && !sqlite ==> out.path == join_path(
                separator,
                data_dir,
                "seekdb"@,
            )
            &&& config.path.len() > 0 && sqlite && !(facts.is_default_seekdb
                && !facts.default_seekdb_holds_sqlite) ==> out == config
            &&& config.path.len() > 0 && sqlite && facts.is_default_seekdb
                && !facts.default_seekdb_holds_sqlite ==> out.path == data_dir
            &&& config.path.len() > 0 && !sqlite && !(facts.is_legacy_seekdb
                && !facts.legacy_seekdb_exists) ==> out == config
            &&& config.path.len() > 0 && !sqlite && facts.is_legacy_seekdb
                && !facts.legacy_seekdb_exists ==> out.path == join_path(
                separator,
                data_dir,
                "seekdb"@,
            )
        }),
{
}

/// The greatest number of a log is the number of one of its entries, and no entry has a greater one;
/// an empty log has zero.
pub proof fn law_greatest_number(logs: Seq<LogEntryView>)
    ensures
        forall|i: int|
            0 <= i < logs.len() ==> (#[trigger] logs[i]).sequence <= greatest_sequence(logs),
        greatest_sequence(logs) == 0 || exists|i: int|
            0 <= i < logs.len() && (#[trigger] logs[i]).sequence == greatest_sequence(logs),
    decreases logs.len(),
{
    if logs.len() > 0 {
        let rest = logs.drop_last();
        law_greatest_number(rest);
        let last = logs[logs.len() - 1];
        assert forall|i: int| 0 <= i < logs.len() implies (#[trigger] logs[i]).sequence
            <= greatest_sequence(logs) by {
            if i < rest.len() {
                assert(rest[i] == logs[i]);
            }
        }
        if greatest_sequence(logs) == last.sequence {
            assert(logs[logs.len() - 1].sequence == greatest_sequence(logs));
        } else if greatest_sequence(rest) > 0 {
            let i = choose|i: int|
                0 <= i < rest.len() && (#[trigger] rest[i]).sequence == greatest_sequence(rest);
            assert(logs[i] == rest[i]);
        }
    }
}

/// The first wait before another attempt is a quarter of a second, and each is twice as long as the
/// one before.
pub proof fn law_waits_double(attempt: u32)
    requires
        1 <= attempt < 5,
    ensures
        retry_delay(1) == 250,
        retry_delay((attempt + 1) as u32) == 2 * retry_delay(attempt),
{
    reveal_with_fuel(retry_delay, 6);
}

/// The place of the data is told by the mode that is in effect.
pub proof fn law_place_of_the_data(
    mode: Seq<char>,
    config: StorageConfigView,
    data_dir: Seq<char>,
    separator: char,
)
    ensures
        mode == "seekdb_embedded"@ ==> described_storage(mode, config, data_dir, separator) == (
            config.path,
            "Embedded SeekDB"@,
        ),
        mode == "seekdb_server"@ || mode == "oceanbase_server"@ ==> described_storage(
            mode,
            config,
            data_dir,
            separator,
        ) == (
            config.host + ":"@ + decimal(config.port as nat) + " / "@ + config.database,
            "SeekDB / OceanBase Server"@,
        ),
        mode == "sqlite_embedded"@ ==> described_storage(mode, config, data_dir, separator) == (
            join_path(
                separator,
                sqlite_directory(data_dir, config),
                "agentseek-desktop.sqlite3"@,
            ),
            "Embedded SQLite"@,
        ),
{
    reveal_strlit("sqlite_embedded");
    reveal_strlit("seekdb_embedded");
    reveal_strlit("seekdb_server");
    reveal_strlit("oceanbase_server");
    assert("sqlite_embedded"@[1] == 'q' && "seekdb_embedded"@[1] == 'e' && "seekdb_server"@.len()
        == 13 && "seekdb_embedded"@.len() == 15 && "oceanbase_server"@[0] == 'o'
        && "sqlite_embedded"@[0] == 's' && "seekdb_server"@[1] == 'e');
}

} // verus!
