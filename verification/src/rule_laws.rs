//! What holds of the roles of services, of commands and messages, and of other single rules.
use vstd::prelude::*;

use crate::commands::{quoted_parts, tokens_of};
use crate::compose::{service_at, service_header};
use crate::deploy::{new_ports_step, NewPorts};
use crate::env::{env_entries, env_file, env_step, merged_entry, EnvProgress, EnvVariableView};
use crate::flow::{command_of, stage_from, Flow, Step};
use crate::json::response_outcome;
use crate::lifecycle::toml_comment;
use crate::logs::page_size;
use crate::paths::join_path;
use crate::ports::{assign, PortChangeView};
use crate::programs::uv_places;
use crate::projects::frontend_writes;
use crate::repair::lifecycle_message;
use crate::runtime_logs::{compacted, field_value, plain_text, safe_name, start_offset};
use crate::search::{
    contains, find, lemma_first_char, lemma_last_char, starts_with, trim, trim_end_of,
    trim_start_of,
};
use crate::services::{kind_of, service_port_keys, shown_name};
use crate::split::{run_len, runs, split, words};
use crate::storage::{sqlite_file, startup_sqlite_file, StorageConfigView};
use crate::text::{ascii_lower, ascii_upper, join};
use crate::tools::{description_line, git_command, plain_name, template_line, template_name};
use crate::unicode::unicode_upper;
use crate::urls::url_port;

verus! {

// ---------------------------------------------------------------------------------------------
// Services
// ---------------------------------------------------------------------------------------------
proof fn lemma_service_names()
    ensures
        "app"@.len() == 3 && "app"@[0] == 'a',
        "web"@.len() == 3 && "web"@[0] == 'w',
        "ctx"@.len() == 3 && "ctx"@[0] == 'c',
        "frontend"@.len() == 8 && "frontend"@[0] == 'f',
        "database"@.len() == 8 && "database"@[0] == 'd',
        "studio"@.len() == 6 && "studio"@[1] == 't',
        "seekdb"@.len() == 6 && "seekdb"@[1] == 'e',
        "langsmith"@.len() == 9 && "langsmith"@[4] == 's',
        "langgraph"@.len() == 9 && "langgraph"@[4] == 'g',
        "oceanbase"@.len() == 9 && "oceanbase"@[4] == 'n',
        "phoenix"@.len() == 7 && "phoenix"@[0] == 'p',
        "gateway"@.len() == 7 && "gateway"@[0] == 'g',
        "backend"@.len() == 7 && "backend"@[0] == 'b',
        "runtime"@.len() == 7 && "runtime"@[0] == 'r',
        "agent"@.len() == 5,
        "copilotkit"@.len() == 10,
        "contextseek"@.len() == 11,
        "db"@.len() == 2,
{
    reveal_strlit("app");
    reveal_strlit("web");
    reveal_strlit("ctx");
    reveal_strlit("frontend");
    reveal_strlit("database");
    reveal_strlit("studio");
    reveal_strlit("seekdb");
    reveal_strlit("langsmith");
    reveal_strlit("langgraph");
    reveal_strlit("oceanbase");
    reveal_strlit("phoenix");
    reveal_strlit("gateway");
    reveal_strlit("backend");
    reveal_strlit("runtime");
    reveal_strlit("agent");
    reveal_strlit("copilotkit");
    reveal_strlit("contextseek");
    reveal_strlit("db");
}

/// What a service is, by its name in whatever case: the frontend is the primary one, and it, Studio
/// and Phoenix are opened in a browser; agents speak a protocol; three kinds of servers are APIs; and
/// four names are those of databases.
pub proof fn law_kinds_of_services(name: Seq<char>)
    ensures
        ({
            let n = ascii_lower(name);
            let kind = kind_of(name).0;
            let front = n == "app"@ || n == "frontend"@ || n == "web"@;
            &&& kind_of(name).1 <==> front
            &&& kind == "web"@ <==> front || n == "studio"@ || n == "langsmith"@ || n == "phoenix"@
            &&& kind == "protocol"@ <==> n == "gateway"@ || n == "agent"@
            &&& kind == "api"@ <==> n == "copilotkit"@ || n == "backend"@ || n == "langgraph"@ || n
                == "ctx"@ || n == "contextseek"@
            &&& kind == "database"@ <==> n == "database"@ || n == "db"@ || n == "seekdb"@ || n
                == "oceanbase"@
        }),
{
    lemma_service_names();
    reveal_strlit("protocol");
    reveal_strlit("api");
    reveal_strlit("other");
    assert("protocol"@.len() == 8 && "protocol"@[0] == 'p');
    assert("api"@.len() == 3 && "api"@[0] == 'a' && "other"@.len() == 5);
}

/// The names under which the known services are shown.
pub proof fn law_shown_names_of_services(name: Seq<char>)
    ensures
        ({
            let n = ascii_lower(name);
            &&& n == "app"@ || n == "frontend"@ || n == "web"@ ==> shown_name(name) == "Frontend"@
            &&& n == "gateway"@ || n == "agent"@ ==> shown_name(name) == "Agent / Gateway"@
            &&& n == "copilotkit"@ ==> shown_name(name) == "CopilotKit Runtime"@
            &&& n == "ctx"@ || n == "contextseek"@ ==> shown_name(name) == "ContextSeek API"@
            &&& n == "studio"@ || n == "langsmith"@ ==> shown_name(name) == "LangSmith Studio"@
        }),
{
    lemma_service_names();
}

/// The port of a service is looked for under the names of its role, in their order, and at last under
/// its own name.
pub proof fn law_variables_of_services(name: Seq<char>)
    ensures
        ({
            let n = ascii_lower(name);
            let keys = service_port_keys(name);
            let own = ascii_upper(name) + "_PORT"@;
            &&& keys.last() == own
            &&& n == "app"@ || n == "frontend"@ || n == "web"@ ==> keys == seq![
                "FRONTEND_PORT"@,
                "APP_PORT"@,
                "WEB_PORT"@,
                own,
            ]
            &&& n == "gateway"@ || n == "agent"@ ==> keys == seq![
                "BUB_AG_UI_PORT"@,
                "AG_UI_PORT"@,
                "GATEWAY_PORT"@,
                "AGENT_PORT"@,
                "BACKEND_PORT"@,
                own,
            ]
            &&& n == "copilotkit"@ || n == "runtime"@ ==> keys == seq![
                "COPILOTKIT_PORT"@,
                "RUNTIME_PORT"@,
                own,
            ]
            &&& n == "backend"@ || n == "langgraph"@ ==> keys == seq![
                "BACKEND_PORT"@,
                "LANGGRAPH_PORT"@,
                "API_PORT"@,
                own,
            ]
            &&& n == "ctx"@ || n == "contextseek"@ ==> keys == seq![
                "CTX_SERVER_PORT"@,
                "CONTEXTSEEK_PORT"@,
                own,
            ]
            &&& n == "studio"@ || n == "langsmith"@ ==> keys == seq![
                "STUDIO_PORT"@,
                "LANGSMITH_PORT"@,
                own,
            ]
            &&& n == "phoenix"@ ==> keys == seq!["PHOENIX_PORT"@, own]
        }),
{
    lemma_service_names();
    let n = ascii_lower(name);
    let keys = service_port_keys(name);
    let own = ascii_upper(name) + "_PORT"@;
    if n == "app"@ || n == "frontend"@ || n == "web"@ {
        assert(keys =~= seq!["FRONTEND_PORT"@, "APP_PORT"@, "WEB_PORT"@, own]);
    } else if n == "gateway"@ || n == "agent"@ {
        assert(keys =~= seq![
            "BUB_AG_UI_PORT"@,
            "AG_UI_PORT"@,
            "GATEWAY_PORT"@,
            "AGENT_PORT"@,
            "BACKEND_PORT"@,
            own,
        ]);
    } else if n == "copilotkit"@ || n == "runtime"@ {
        assert(keys =~= seq!["COPILOTKIT_PORT"@, "RUNTIME_PORT"@, own]);
    } else if n == "backend"@ || n == "langgraph"@ {
        assert(keys =~= seq!["BACKEND_PORT"@, "LANGGRAPH_PORT"@, "API_PORT"@, own]);
    } else if n == "ctx"@ || n == "contextseek"@ {
        assert(keys =~= seq!["CTX_SERVER_PORT"@, "CONTEXTSEEK_PORT"@, own]);
    } else if n == "studio"@ || n == "langsmith"@ {
        assert(keys =~= seq!["STUDIO_PORT"@, "LANGSMITH_PORT"@, own]);
    } else if n == "phoenix"@ {
        assert(keys =~= seq!["PHOENIX_PORT"@, own]);
    }
}

/// A port that is assigned to a service of a new instance under its own name is noted as a change
/// exactly where the port in its URL is not available; the change goes from that port to the new one.
pub proof fn law_moved_ports_are_noted(
    run: NewPorts,
    service: (Seq<char>, Seq<char>),
    free: Seq<u16>,
    port: u16,
)
    requires
        url_port(service.1) == Some(port as nat),
        port > 0,
        crate::commands::first_port(run.ports, ascii_upper(service.0) + "_PORT"@, 0) is None,
        crate::deploy::change_of_port(run.changes, port as nat, 0) is None,
        !run.taken.contains(port),
    ensures
        new_ports_step(run, service, free) is Some <==> assign(port, free, run.taken, run.spare)
            is Some,
        new_ports_step(run, service, free) matches Some(out) ==> {
            let given = assign(port, free, run.taken, run.spare)->0.port;
            &&& free.contains(port) ==> given == port && out.changes == run.changes
            &&& !free.contains(port) ==> out.changes == run.changes.push(
                PortChangeView {
                    key: ascii_upper(service.0) + "_PORT"@,
                    old_port: port,
                    new_port: given,
                },
            )
            &&& out.ports == crate::ports::with_port(
                run.ports,
                ascii_upper(service.0) + "_PORT"@,
                given,
            )
            &&& out.taken.contains(given)
        },
{
    let a = assign(port, free, run.taken, run.spare);
    if a is Some {
        let taken = a->0.taken;
        assert(taken[taken.len() - 1] == a->0.port);
    }
}

// ---------------------------------------------------------------------------------------------
// Texts
// ---------------------------------------------------------------------------------------------
/// The name of a file is as long as the id that it is made of. Letters, digits, `-` and `_` stay, and
/// every other character is an underscore.
pub proof fn law_names_of_files_are_safe(id: Seq<char>, k: int)
    requires
        0 <= k < id.len(),
    ensures
        safe_name(id).len() == id.len(),
        ('a' <= id[k] <= 'z' || 'A' <= id[k] <= 'Z' || '0' <= id[k] <= '9' || id[k] == '-' || id[k]
            == '_') ==> safe_name(id)[k] == id[k],
        !('a' <= id[k] <= 'z' || 'A' <= id[k] <= 'Z' || '0' <= id[k] <= '9' || id[k] == '-' || id[k]
            == '_') ==> safe_name(id)[k] == '_',
{
}

/// A name is plain exactly where it is not empty and made of letters, digits, `-`, `_` and `.`.
pub proof fn law_plain_names(name: Seq<char>)
    ensures
        plain_name(name) <==> name.len() > 0 && forall|k: int|
            0 <= k < name.len() ==> 'a' <= #[trigger] name[k] <= 'z' || 'A' <= name[k] <= 'Z' || '0'
                <= name[k] <= '9' || name[k] == '-' || name[k] == '_' || name[k] == '.',
{
}

/// The tokens of a command line are the strings behind its equals sign; where there is only one, they
/// are the words of that string.
pub proof fn law_tokens_of_a_command(key: Seq<char>, value: Seq<char>)
    requires
        forall|k: int| 0 <= k < key.len() ==> key[k] != '=',
    ensures
        quoted_parts(value).len() == 1 ==> tokens_of(key + "="@ + value) == words(
            quoted_parts(value)[0],
        ),
        quoted_parts(value).len() != 1 ==> tokens_of(key + "="@ + value) == quoted_parts(value),
{
    reveal_strlit("=");
    assert("="@ =~= seq!['=']);
    let line = key + "="@ + value;
    let n = key.len() as int;
    assert(line[n] == '=');
    assert forall|j: int| 0 <= j < n implies line[j] != '=' by {
        assert(line[j] == key[j]);
    }
    lemma_first_char(line, '=', n);
    assert(line.skip(n + 1) =~= value);
}

proof fn lemma_run(word: Seq<char>, rest: Seq<char>, set: Seq<char>)
    requires
        forall|k: int| 0 <= k < word.len() ==> !set.contains(#[trigger] word[k]),
        rest.len() == 0 || set.contains(rest[0]),
    ensures
        run_len(word + rest, set) == word.len(),
    decreases word.len(),
{
    if word.len() == 0 {
        assert(word + rest =~= rest);
    } else {
        assert((word + rest)[0] == word[0]);
        assert((word + rest).skip(1) =~= word.skip(1) + rest);
        assert forall|k: int| 0 <= k < word.skip(1).len() implies !set.contains(
            #[trigger] word.skip(1)[k],
        ) by {
            assert(word.skip(1)[k] == word[k + 1]);
        }
        lemma_run(word.skip(1), rest, set);
    }
}

/// Marks part a text into words: a word, a mark, and the words of the rest. Marks alone make none.
pub proof fn law_marks_part_words(word: Seq<char>, mark: char, rest: Seq<char>, set: Seq<char>)
    requires
        word.len() > 0,
        forall|k: int| 0 <= k < word.len() ==> !set.contains(#[trigger] word[k]),
        set.contains(mark),
    ensures
        runs(word, set) == seq![word],
        runs(word + seq![mark] + rest, set) == seq![word] + runs(rest, set),
        runs(seq![mark] + rest, set) == runs(rest, set),
{
    let none = Seq::<char>::empty();
    lemma_run(word, none, set);
    assert(word + none =~= word);
    assert(word.take(word.len() as int) =~= word);
    assert(word.skip(word.len() as int) =~= none);
    assert(!set.contains(word[0]));
    assert(runs(none, set) =~= seq![]);
    assert(runs(word, set) =~= seq![word]);
    let tail = seq![mark] + rest;
    let all = word + seq![mark] + rest;
    assert(all =~= word + tail);
    lemma_run(word, tail, set);
    assert(all[0] == word[0]);
    assert(all.take(word.len() as int) =~= word);
    assert(all.skip(word.len() as int) =~= tail);
    assert(tail[0] == mark);
    assert(tail.skip(1) =~= rest);
    assert(runs(tail, set) == runs(rest, set));
    assert(runs(all, set) == seq![word] + runs(tail, set));
}

/// The name of a template is made of the words behind the last slash of its id, which `-` and `_`
/// part: each begins with a capital, and single spaces part them.
pub proof fn law_names_of_templates(
    before: Seq<char>,
    one: Seq<char>,
    mark: char,
    two: Seq<char>,
)
    requires
        one.len() > 0,
        two.len() > 0,
        mark == '-' || mark == '_',
        forall|k: int| 0 <= k < one.len() ==> one[k] != '-' && one[k] != '_' && one[k] != '/',
        forall|k: int| 0 <= k < two.len() ==> two[k] != '-' && two[k] != '_' && two[k] != '/',
    ensures
        template_name(before + "/"@ + one) == unicode_upper(one[0]) + one.skip(1),
        template_name(before + "/"@ + (one + seq![mark] + two)) == unicode_upper(one[0]) + one.skip(
            1,
        ) + " "@ + (unicode_upper(two[0]) + two.skip(1)),
{
    reveal_strlit("/");
    reveal_strlit("-_");
    let set = "-_"@;
    assert("/"@ =~= seq!['/']);
    assert(set.len() == 2 && set[0] == '-' && set[1] == '_');
    assert(set.contains(mark));
    let both = one + seq![mark] + two;
    let n = before.len() as int;
    let s = before + "/"@ + one;
    assert(s[n] == '/');
    assert forall|j: int| n < j < s.len() implies s[j] != '/' by {
        assert(s[j] == one[j - n - 1]);
    }
    lemma_last_char(s, '/', n);
    assert(s.skip(n + 1) =~= one);
    let t = before + "/"@ + both;
    assert(t[n] == '/');
    assert forall|j: int| n < j < t.len() implies t[j] != '/' by {
        assert(t[j] == both[j - n - 1]);
        if j - n - 1 > one.len() {
            assert(both[j - n - 1] == two[j - n - 1 - one.len() - 1]);
        }
    }
    lemma_last_char(t, '/', n);
    assert(t.skip(n + 1) =~= both);
    law_marks_part_words(one, mark, two, set);
    law_marks_part_words(two, mark, one, set);
    let first = unicode_upper(one[0]) + one.skip(1);
    let second = unicode_upper(two[0]) + two.skip(1);
    let cap = |w: Seq<char>| crate::tools::capitalized(w);
    assert(seq![one].map_values(cap) =~= seq![first]);
    assert((seq![one] + seq![two]).map_values(cap) =~= seq![first, second]);
    reveal_with_fuel(join, 3);
    assert(seq![first, second].drop_last() =~= seq![first]);
}

proof fn lemma_comment_behind(
    a: Seq<char>,
    rest: Seq<char>,
    j: int,
    quote: Option<char>,
    escaped: bool,
)
    requires
        0 <= j <= rest.len(),
    ensures
        toml_comment(a + rest, a.len() + j, quote, escaped) == a.len() + toml_comment(
            rest,
            j,
            quote,
            escaped,
        ),
    decreases rest.len() - j,
{
    if j < rest.len() {
        assert((a + rest)[a.len() + j] == rest[j]);
        lemma_comment_behind(a, rest, j + 1, quote, false);
        lemma_comment_behind(a, rest, j + 1, quote, true);
        lemma_comment_behind(a, rest, j + 1, quote, escaped);
        lemma_comment_behind(a, rest, j + 1, None, escaped);
        lemma_comment_behind(a, rest, j + 1, Some(rest[j]), escaped);
    }
}

proof fn lemma_bare(value: Seq<char>, i: int, n: int)
    requires
        0 <= i <= n <= value.len(),
        forall|k: int| i <= k < n ==> value[k] != '\'' && value[k] != '"' && value[k] != '#',
    ensures
        toml_comment(value, i, None, false) == toml_comment(value, n, None, false),
    decreases n - i,
{
    if i < n {
        assert(value[i] != '#');
        lemma_bare(value, i + 1, n);
    }
}

proof fn lemma_literal(value: Seq<char>, i: int, n: int)
    requires
        0 <= i <= n <= value.len(),
        forall|k: int| i <= k < n ==> value[k] != '\'',
    ensures
        toml_comment(value, i, Some('\''), false) == toml_comment(value, n, Some('\''), false),
    decreases n - i,
{
    if i < n {
        assert(value[i] != '\'');
        lemma_literal(value, i + 1, n);
    }
}

proof fn lemma_basic(value: Seq<char>, i: int, n: int)
    requires
        0 <= i <= n <= value.len(),
        forall|k: int| i <= k < n ==> value[k] != '"' && value[k] != '\\',
    ensures
        toml_comment(value, i, Some('"'), false) == toml_comment(value, n, Some('"'), false),
    decreases n - i,
{
    if i < n {
        assert(value[i] != '"');
        lemma_basic(value, i + 1, n);
    }
}

/// Where the comment behind a value starts. A `#` outside quotes starts it; one between quotes does
/// not. Between single quotes a backslash is as any other character; between double quotes it takes
/// the next character with it, a quote too.
pub proof fn law_comments_behind_values(
    text: Seq<char>,
    more: Seq<char>,
    c: char,
    rest: Seq<char>,
)
    ensures
        toml_comment("#"@ + rest, 0, None, false) == 0,
        (forall|k: int| 0 <= k < text.len() ==> text[k] != '\'' && text[k] != '"' && text[k] != '#')
            ==> toml_comment(text + rest, 0, None, false) == text.len() + toml_comment(
            rest,
            0,
            None,
            false,
        ),
        (forall|k: int| 0 <= k < text.len() ==> text[k] != '\'') ==> toml_comment(
            seq!['\''] + text + seq!['\''] + rest,
            0,
            None,
            false,
        ) == text.len() + 2 + toml_comment(rest, 0, None, false),
        (forall|k: int| 0 <= k < text.len() ==> text[k] != '"' && text[k] != '\\') && (forall|k: int|
            0 <= k < more.len() ==> more[k] != '"' && more[k] != '\\') ==> toml_comment(
            seq!['"'] + text + seq!['"'] + rest,
            0,
            None,
            false,
        ) == text.len() + 2 + toml_comment(rest, 0, None, false) && toml_comment(
            seq!['"'] + text + seq!['\\', c] + more + seq!['"'] + rest,
            0,
            None,
            false,
        ) == text.len() + more.len() + 4 + toml_comment(rest, 0, None, false),
{
    reveal_strlit("#");
    assert(("#"@ + rest)[0] == '#');
    let n = text.len() as int;
    if forall|k: int| 0 <= k < text.len() ==> text[k] != '\'' && text[k] != '"' && text[k] != '#' {
        let s = text + rest;
        assert forall|k: int| 0 <= k < n implies s[k] != '\'' && s[k] != '"' && s[k] != '#' by {
            assert(s[k] == text[k]);
        }
        lemma_bare(s, 0, n);
        lemma_comment_behind(text, rest, 0, None, false);
    }
    if forall|k: int| 0 <= k < text.len() ==> text[k] != '\'' {
        let front = seq!['\''] + text + seq!['\''];
        let s = front + rest;
        assert(s[0] == '\'');
        assert forall|k: int| 1 <= k < n + 1 implies s[k] != '\'' by {
            assert(s[k] == text[k - 1]);
        }
        lemma_literal(s, 1, n + 1);
        assert(s[n + 1] == '\'');
        lemma_comment_behind(front, rest, 0, None, false);
        assert(front.len() == n + 2);
        assert(toml_comment(s, n + 1, Some('\''), false) == toml_comment(s, n + 2, None, false));
    }
    if (forall|k: int| 0 <= k < text.len() ==> text[k] != '"' && text[k] != '\\') && (forall|k: int|
        0 <= k < more.len() ==> more[k] != '"' && more[k] != '\\') {
        let front = seq!['"'] + text + seq!['"'];
        let s = front + rest;
        assert(s[0] == '"');
        assert forall|k: int| 1 <= k < n + 1 implies s[k] != '"' && s[k] != '\\' by {
            assert(s[k] == text[k - 1]);
        }
        lemma_basic(s, 1, n + 1);
        assert(s[n + 1] == '"');
        lemma_comment_behind(front, rest, 0, None, false);
        assert(front.len() == n + 2);
        assert(toml_comment(s, n + 1, Some('"'), false) == toml_comment(s, n + 2, None, false));
        let m = more.len() as int;
        let long = seq!['"'] + text + seq!['\\', c] + more + seq!['"'];
        let t = long + rest;
        assert(t[0] == '"');
        assert forall|k: int| 1 <= k < n + 1 implies t[k] != '"' && t[k] != '\\' by {
            assert(t[k] == text[k - 1]);
        }
        lemma_basic(t, 1, n + 1);
        assert(t[n + 1] == '\\');
        assert(toml_comment(t, n + 1, Some('"'), false) == toml_comment(t, n + 2, Some('"'), true));
        assert(toml_comment(t, n + 2, Some('"'), true) == toml_comment(t, n + 3, Some('"'), false));
        assert forall|k: int| n + 3 <= k < n + 3 + m implies t[k] != '"' && t[k] != '\\' by {
            assert(t[k] == more[k - n - 3]);
        }
        lemma_basic(t, n + 3, n + 3 + m);
        assert(t[n + 3 + m] == '"');
        lemma_comment_behind(long, rest, 0, None, false);
        assert(long.len() == n + m + 4);
        assert(toml_comment(t, n + 3 + m, Some('"'), false) == toml_comment(
            t,
            n + m + 4,
            None,
            false,
        ));
    }
}

/// The value of a field of a record is the word behind it, without the comma, the brace or the quotes
/// round it.
pub proof fn law_fields_of_records(
    value: Seq<char>,
    field: Seq<char>,
    i: int,
    item: Seq<char>,
    p: char,
    q: char,
)
    requires
        find(value, field) == Some(i),
        words(value.skip(i + field.len())).len() > 0,
        item.len() > 0,
        item[0] != ',' && item[0] != '}' && item[0] != '\'' && item[0] != '"',
        item.last() != ',' && item.last() != '}' && item.last() != '\'' && item.last() != '"',
        p == ',' || p == '}' || p == '\'' || p == '"',
        q == ',' || q == '}' || q == '\'' || q == '"',
    ensures
        words(value.skip(i + field.len()))[0] == item ==> field_value(value, field) == Some(item),
        words(value.skip(i + field.len()))[0] == seq![p] + item + seq![q] ==> field_value(
            value,
            field,
        ) == Some(item),
{
    reveal_strlit(",}'\"");
    let set = ",}'\""@;
    assert(set.len() == 4 && set[0] == ',' && set[1] == '}' && set[2] == '\'' && set[3] == '"');
    assert(set.contains(p) && set.contains(q));
    assert(!set.contains(item[0]) && !set.contains(item.last()));
    reveal_with_fuel(trim_start_of, 3);
    reveal_with_fuel(trim_end_of, 3);
    let whole = seq![p] + item + seq![q];
    assert(whole[0] == p);
    let half = whole.skip(1);
    assert(half =~= item + seq![q]);
    assert(half[0] == item[0]);
    assert(trim_start_of(whole, set) == half);
    assert(half.last() == q);
    assert(half.drop_last() =~= item);
    assert(trim_end_of(half, set) == item);
}

/// What is said of an instance's life, whether it runs or not, tells of its being stopped, restarted
/// or deleted, and of nothing else.
pub proof fn law_messages_of_the_lifecycle(message: Seq<char>, lower: Seq<char>)
    ensures
        message == "Instance stopped"@ || lower == "instance stopped"@ ==> lifecycle_message(
            message,
            lower,
        ),
        starts_with(message, "Stopped instance process tree"@) || starts_with(
            message,
            "Instance associated processes stopped"@,
        ) || starts_with(message, "Doctor passed; instance restarted"@) || starts_with(
            message,
            "Instance deletion completed"@,
        ) ==> lifecycle_message(message, lower),
        contains(lower, "instance restarted"@) || contains(lower, "delete instance"@)
            ==> lifecycle_message(message, lower),
        contains(lower, "instance"@) && contains(lower, "deleted"@) ==> lifecycle_message(
            message,
            lower,
        ),
        lifecycle_message(message, lower) ==> message == "Instance stopped"@ || lower
            == "instance stopped"@ || starts_with(message, "Stopped instance process tree"@)
            || starts_with(message, "Instance associated processes stopped"@) || starts_with(
            message,
            "Doctor passed; instance restarted"@,
        ) || starts_with(message, "Instance deletion completed"@) || contains(
            lower,
            "instance restarted"@,
        ) || contains(lower, "delete instance"@) || contains(lower, "instance"@) && contains(
            lower,
            "deleted"@,
        ) || contains(message, "Delete instance"@) || contains(message, "Instance record deleted"@)
            || contains(message, "Instance processes, working directory, and record deleted"@),
        contains(message, "Delete instance"@) || contains(message, "Instance record deleted"@)
            || contains(message, "Instance processes, working directory, and record deleted"@)
            ==> lifecycle_message(message, lower),
{
}

// ---------------------------------------------------------------------------------------------
// Steps, places and answers
// ---------------------------------------------------------------------------------------------
/// Six steps run a command of AgentSeek each, and no other step does. An installation shows the stage
/// of its step, and a restart shows none.
pub proof fn law_commands_of_steps(step: Step)
    ensures
        step is ListTasks ==> command_of(step) == Some(seq!["task"@, "--list"@]),
        step is BackendTask ==> command_of(step) == Some(seq!["task"@, "backend"@]),
        step is FrontendTask ==> command_of(step) == Some(seq!["task"@, "frontend"@]),
        step is Info ==> command_of(step) == Some(seq!["info"@]),
        step is Doctor ==> command_of(step) == Some(seq!["doctor"@]),
        step is DryRun ==> command_of(step) == Some(seq!["dev"@, "--dry-run"@]),
        command_of(step) is Some ==> step is ListTasks || step is BackendTask || step
            is FrontendTask || step is Info || step is Doctor || step is DryRun,
        stage_from(Flow::Restart, step) is None,
        step is CheckDocker || step is ListTasks ==> stage_from(Flow::Install, step) == Some(
            "tasks"@,
        ),
        step is Doctor ==> stage_from(Flow::Install, step) == Some("doctor"@),
        step is DryRun ==> stage_from(Flow::Install, step) == Some("dry-run"@),
        step is Spawn ==> stage_from(Flow::Install, step) == Some("starting"@),
        stage_from(Flow::Install, step) is Some ==> step is CheckDocker || step is ListTasks || step
            is Doctor || step is DryRun || step is Spawn,
{
}

/// An answer of the storage is good exactly where it can be read and confirms its success. Any other
/// gives the error that it names, or else the one that was asked about.
pub proof fn law_answers_of_the_storage(
    fault: Option<Seq<char>>,
    ok: Option<bool>,
    error: Option<Seq<char>>,
    otherwise: Seq<char>,
)
    ensures
        response_outcome(fault, ok, error, otherwise) is Ok <==> fault is None && ok == Some(true),
        fault is None && ok != Some(true) && error is Some ==> response_outcome(
            fault,
            ok,
            error,
            otherwise,
        ) == Err::<(), Seq<char>>(error->0),
        fault is None && ok != Some(true) && error is None ==> response_outcome(
            fault,
            ok,
            error,
            otherwise,
        ) == Err::<(), Seq<char>>(otherwise),
        fault matches Some(message) ==> response_outcome(fault, ok, error, otherwise) == Err::<
            (),
            Seq<char>,
        >("SeekDB response format error: "@ + message),
{
}

/// A file is read from where reading ended, and from its beginning where it is shorter than that.
pub proof fn law_reading_goes_on(cursor: u64, length: u64)
    ensures
        cursor <= length ==> start_offset(cursor, length) == cursor,
        cursor > length ==> start_offset(cursor, length) == 0,
{
}

/// The file of SQLite is that of the configuration exactly where SQLite is configured; else it is the
/// one in the directory of the application.
pub proof fn law_file_of_a_start(
    data_dir: Seq<char>,
    config: StorageConfigView,
    separator: char,
)
    ensures
        config.mode == "sqlite_embedded"@ ==> startup_sqlite_file(data_dir, config, separator)
            == sqlite_file(data_dir, config, separator),
        config.mode != "sqlite_embedded"@ ==> startup_sqlite_file(data_dir, config, separator)
            == join_path(separator, data_dir, "agentseek-desktop.sqlite3"@),
{
}

/// Git is upgraded on macOS where it is there and installed where it is not; two families of Linux
/// and Windows have a command each, and elsewhere the user is asked to install it.
pub proof fn law_commands_for_git(platform: Seq<char>, there: bool)
    ensures
        git_command("macos"@, true) == "brew upgrade git"@,
        git_command("macos"@, false) == "brew install git"@,
        git_command("debian"@, there) == "sudo apt-get update && sudo apt-get install -y git"@,
        git_command("rhel"@, there) == "sudo dnf install -y git"@,
        git_command("windows"@, there) == "winget install --id Git.Git"@,
        platform != "macos"@ && platform != "debian"@ && platform != "rhel"@ && platform
            != "windows"@ ==> git_command(platform, there)
            == "Please install the required Git version using your system package manager"@,
{
    reveal_strlit("macos");
    reveal_strlit("debian");
    reveal_strlit("rhel");
    reveal_strlit("windows");
    assert("macos"@.len() == 5 && "debian"@.len() == 6 && "rhel"@.len() == 4 && "windows"@.len()
        == 7);
}

/// uv is looked for in three places of the home directory, then in three of the system.
pub proof fn law_places_of_uv(home: Seq<char>, separator: char)
    ensures
        uv_places(Some(home), separator).len() == 6,
        uv_places(Some(home), separator)[0] == join_path(separator, home, ".local/bin/uv"@),
        uv_places(Some(home), separator)[1] == join_path(separator, home, ".cargo/bin/uv"@),
        uv_places(Some(home), separator)[2] == join_path(separator, home, ".pyenv/shims/uv"@),
        uv_places(Some(home), separator).skip(3) == uv_places(None, separator),
        uv_places(None, separator).len() == 3,
        uv_places(None, separator)[0] == "/opt/homebrew/bin/uv"@,
        uv_places(None, separator)[1] == "/usr/local/bin/uv"@,
{
    assert(uv_places(Some(home), separator).skip(3) =~= uv_places(None, separator));
}

/// The variables of a frontend are written exactly where it has an example of them and its file does
/// not hold them yet; what its file has saved is kept.
pub proof fn law_variables_of_a_frontend_are_written(
    root: Seq<char>,
    example: Seq<char>,
    current: Option<Seq<char>>,
    env: Seq<EnvVariableView>,
    separator: char,
)
    ensures
        frontend_writes(root, None, current, env, separator).len() == 0,
        ({
            let saved = match current {
                Some(content) => env_entries(content),
                None => Seq::<EnvVariableView>::empty(),
            };
            let content = env_file(
                crate::deploy::frontend_variables(env_entries(example), saved, env),
            );
            let writes = frontend_writes(root, Some(example), current, env, separator);
            &&& current == Some(content) ==> writes.len() == 0
            &&& current != Some(content) ==> writes == seq![
                (join_path(separator, root, "frontend/.env"@), content),
            ]
        }),
{
}

/// A line of a list of templates names a template exactly where it has one slash between two parts,
/// no space, and is no address. It describes one exactly where it is not blank, does not consist of
/// rules, and is not the heading of a group.
pub proof fn law_lines_of_template_lists(line: Seq<char>)
    ensures
        template_line(line) <==> contains(line, "/"@) && !contains(line, " "@) && !starts_with(
            line,
            "http"@,
        ) && split(line, "/"@).len() == 2,
        description_line(line) <==> line.len() > 0 && (exists|k: int|
            0 <= k < line.len() && #[trigger] line[k] != '─') && !contains(line, "templates)"@),
{
}

/// The line `services:` of a compose file starts no service, however it is indented.
pub proof fn law_list_of_services_is_no_service(service: Option<Seq<char>>, line: Seq<char>)
    requires
        service_header(line),
    ensures
        trim_end_of(trim(line), ":"@) == "services"@ ==> service_at(service, line) is None,
        trim_end_of(trim(line), ":"@) != "services"@ ==> service_at(service, line) == Some(
            trim_end_of(trim(line), ":"@),
        ),
{
}

/// What is told of a failed call of a tool names the tool, or says that it is unknown, and how long
/// the call took where the record tells it.
pub proof fn law_failed_calls_are_told(value: Seq<char>, lower: Seq<char>, suppress: bool)
    requires
        contains(lower, "tool.call.error"@),
    ensures
        ({
            let clean = plain_text(value);
            let said = compacted(value, lower, suppress).0;
            let name = field_value(clean, "name="@);
            let time = field_value(clean, "elapsed_time="@);
            &&& name is Some && time is None ==> said == Some("Tool call failed: "@ + name->0)
            &&& name is Some && time is Some ==> said == Some(
                "Tool call failed: "@ + name->0 + " ("@ + time->0 + ")"@,
            )
            &&& name is None && time is None ==> said == Some("Tool call failed: "@ + "unknown"@)
            &&& name is None && time is Some ==> said == Some(
                "Tool call failed: "@ + "unknown"@ + " ("@ + time->0 + ")"@,
            )
        }),
{
}

/// A page holds as many entries as were asked for, but at least one and at most a thousand.
pub proof fn law_sizes_of_pages(limit: usize)
    ensures
        1 <= limit <= 1000 ==> page_size(limit) == limit,
        limit < 1 ==> page_size(limit) == 1,
        limit > 1000 ==> page_size(limit) == 1000,
{
}

/// A blank line between comments stays between them as a blank one, and one before any comment is
/// left out.
pub proof fn law_blank_lines_part_comments(progress: EnvProgress, line: Seq<char>)
    requires
        trim(line).len() == 0,
    ensures
        progress.comments.len() == 0 ==> env_step(progress, line) == progress,
        progress.comments.len() > 0 ==> env_step(progress, line) == (EnvProgress {
            entries: progress.entries,
            comments: progress.comments.push(Seq::<char>::empty()),
        }),
{
    reveal_strlit("#");
    assert(!starts_with(trim(line), "#"@));
}

/// A variable keeps its own comment, and takes that of the vault only where it has none.
pub proof fn law_comments_come_from_the_vault(
    entry: EnvVariableView,
    vault: Seq<EnvVariableView>,
    k: int,
)
    requires
        0 <= k < vault.len(),
        vault[k].key == entry.key,
        forall|j: int| k < j < vault.len() ==> (#[trigger] vault[j]).key != entry.key,
    ensures
        entry.comment.len() > 0 ==> merged_entry(entry, vault).comment == entry.comment,
        entry.comment.len() == 0 ==> merged_entry(entry, vault).comment == vault[k].comment,
        merged_entry(entry, vault).key == entry.key,
        merged_entry(entry, vault).modified == entry.modified,
{
    crate::project_laws::lemma_last_key(vault, entry.key, k);
}

} // verus!
