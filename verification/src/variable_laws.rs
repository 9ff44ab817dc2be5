//! What holds of the variables of an instance: how they are read, and how they take up ports.
use vstd::prelude::*;

use crate::deploy::{
    added_environment, first_unusable, frontend_variables, not_in_example, unusable,
    with_chosen_port, with_saved, with_service_urls, with_service_variable, with_service_variables,
    with_tracing,
};
use crate::env::{
    comment_start, env_step, has_marker, secret_key, value_and_comment, EnvProgress,
    EnvVariableView,
};
use crate::number::{decimal, lemma_decimal_value, lemma_parse_decimal};
use crate::ports::{
    assigned_ports, described_port, index_with_upper_key, last_with_upper_key, local_url,
    longest_named, port_value, synchronized_entry, with_named_port, PortChangeView,
};
use crate::search::{
    at, contains, ends_with, find, find_any, lemma_at_char, lemma_find, lemma_find_any_from,
    lemma_first_char, lemma_trim_is_trimmed, starts_with, trim, trim_end, trim_end_all, trim_start,
    trim_start_of,
};
use crate::text::{ascii_lower, ascii_upper, byte_len, is_digit, is_space, join};
use crate::urls::{url_port, url_with_port};

verus! {

// ---------------------------------------------------------------------------------------------
// Secrets
// ---------------------------------------------------------------------------------------------
/// A word stands in a name between underscores or the ends of the name.
pub open spec fn is_word_of(name: Seq<char>, word: Seq<char>) -> bool {
    exists|i: int| is_word_at(name, word, i)
}

pub open spec fn is_word_at(name: Seq<char>, word: Seq<char>, i: int) -> bool {
    &&& 0 <= i
    &&& i + word.len() <= name.len()
    &&& name.subrange(i, i + word.len()) == word
    &&& i == 0 || name[i - 1] == '_'
    &&& i + word.len() == name.len() || name[i + word.len()] == '_'
}

proof fn lemma_marker_is_word(name: Seq<char>, word: Seq<char>)
    requires
        word.len() > 0,
    ensures
        has_marker(name, word) <==> is_word_of(name, word),
{
    reveal_strlit("_");
    let a = word + "_"@;
    let b = "_"@ + word;
    let c = "_"@ + word + "_"@;
    let n = word.len() as int;
    if has_marker(name, word) {
        if name == word {
            assert(name.subrange(0, n) =~= word);
            assert(is_word_at(name, word, 0));
        } else if starts_with(name, a) {
            assert(name.subrange(0, n + 1)[n] == '_');
            assert(name.subrange(0, n) =~= name.subrange(0, n + 1).subrange(0, n));
            assert(a.subrange(0, n) =~= word);
            assert(is_word_at(name, word, 0));
        } else if ends_with(name, b) {
            let i = name.len() - n - 1;
            assert(name.subrange(i, i + n + 1)[0] == '_');
            assert(name.subrange(i + 1, i + 1 + n) =~= name.subrange(i, i + n + 1).subrange(
                1,
                n + 1,
            ));
            assert(b.subrange(1, n + 1) =~= word);
            assert(is_word_at(name, word, i + 1));
        } else {
            let i = choose|i: int| at(name, c, i);
            let found = name.subrange(i, i + n + 2);
            assert(found[0] == '_' && found[n + 1] == '_');
            assert(name.subrange(i + 1, i + 1 + n) =~= found.subrange(1, n + 1));
            assert(c.subrange(1, n + 1) =~= word);
            assert(is_word_at(name, word, i + 1));
        }
    }
    if is_word_of(name, word) {
        let i = choose|i: int| is_word_at(name, word, i);
        if i == 0 && n == name.len() {
            assert(name =~= word);
        } else if i == 0 {
            assert(name.subrange(0, n + 1) =~= a);
        } else if i + n == name.len() {
            assert(name.subrange(i - 1, i + n) =~= b);
        } else {
            assert(name.subrange(i - 1, i + n + 1) =~= c);
            assert(at(name, c, i - 1));
        }
    }
}

/// A variable is a secret exactly where one of five words stands in its name, in whatever case,
/// between underscores or the ends of the name.
pub proof fn law_secret_names(key: Seq<char>)
    ensures
        secret_key(key) <==> is_word_of(ascii_upper(key), "KEY"@) || is_word_of(
            ascii_upper(key),
            "TOKEN"@,
        ) || is_word_of(ascii_upper(key), "SECRET"@) || is_word_of(ascii_upper(key), "PASSWORD"@)
            || is_word_of(ascii_upper(key), "CREDENTIAL"@),
{
    reveal_strlit("KEY");
    reveal_strlit("TOKEN");
    reveal_strlit("SECRET");
    reveal_strlit("PASSWORD");
    reveal_strlit("CREDENTIAL");
    let k = ascii_upper(key);
    lemma_marker_is_word(k, "KEY"@);
    lemma_marker_is_word(k, "TOKEN"@);
    lemma_marker_is_word(k, "SECRET"@);
    lemma_marker_is_word(k, "PASSWORD"@);
    lemma_marker_is_word(k, "CREDENTIAL"@);
}

// ---------------------------------------------------------------------------------------------
// Lines of an environment file
// ---------------------------------------------------------------------------------------------
proof fn lemma_no_hash(raw: Seq<char>, i: int, quote: Option<char>, escaped: bool)
    requires
        0 <= i,
        forall|k: int| i <= k < raw.len() ==> raw[k] != '#',
    ensures
        comment_start(raw, i, quote, escaped) is None,
    decreases raw.len() - i,
{
    if i < raw.len() {
        if escaped {
            lemma_no_hash(raw, i + 1, quote, false);
        } else if raw[i] == '\\' && quote == Some('"') {
            lemma_no_hash(raw, i + 1, quote, true);
        } else if raw[i] == '\'' || raw[i] == '"' {
            lemma_no_hash(raw, i + 1, None, false);
            lemma_no_hash(raw, i + 1, Some(raw[i]), false);
            lemma_no_hash(raw, i + 1, quote, false);
        } else {
            lemma_no_hash(raw, i + 1, quote, false);
        }
    }
}

/// Characters that neither quote nor start a comment are passed over.
proof fn lemma_pass(raw: Seq<char>, i: int, n: int, quote: Option<char>)
    requires
        0 <= i <= n <= raw.len(),
        forall|k: int|
            i <= k < n ==> #[trigger] raw[k] != '\'' && raw[k] != '"' && raw[k] != '\\' && (raw[k] != '#' || k
                == 0 || !is_space(raw[k - 1])),
    ensures
        comment_start(raw, i, None, false) == comment_start(raw, n, None, false),
    decreases n - i,
{
    if i < n {
        lemma_pass(raw, i + 1, n, quote);
    }
}

/// Characters between quotes are passed over.
proof fn lemma_pass_quoted(raw: Seq<char>, i: int, n: int, quote: char)
    requires
        0 <= i <= n < raw.len(),
        quote == '\'' || quote == '"',
        raw[n] == quote,
        forall|k: int| i <= k < n ==> raw[k] != quote && raw[k] != '\\',
    ensures
        comment_start(raw, i, Some(quote), false) == comment_start(raw, n + 1, None, false),
    decreases n - i,
{
    if i < n {
        lemma_pass_quoted(raw, i + 1, n, quote);
    }
}

/// What a value on a line is. Without a `#` it is the whole text. A `#` behind white space starts a
/// comment, and what stands before it is the value; a `#` behind anything else is part of the value,
/// and so is one between quotes.
pub proof fn law_values_and_comments(value: Seq<char>, comment: Seq<char>, quote: char)
    ensures
        (forall|k: int| 0 <= k < value.len() ==> value[k] != '#') ==> value_and_comment(value) == (
            value,
            None::<Seq<char>>,
        ),
        value.len() > 0 && !is_space(value.last()) && (forall|k: int|
            0 <= k < value.len() ==> value[k] != '\'' && value[k] != '"' && value[k] != '\\'
                && value[k] != '#') ==> value_and_comment(value + " #"@ + comment) == (
            value,
            if trim(comment).len() == 0 {
                None
            } else {
                Some(trim(comment))
            },
        ),
        (forall|k: int|
            0 <= k < value.len() ==> #[trigger] value[k] != '\'' && value[k] != '"' && value[k]
                != '\\' && (value[k] != '#' || k == 0 || !is_space(value[k - 1]))) ==> value_and_comment(value) == (
            value,
            None::<Seq<char>>,
        ),
        (quote == '\'' || quote == '"') && (forall|k: int|
            0 <= k < value.len() ==> value[k] != quote && value[k] != '\\') ==> value_and_comment(
            seq![quote] + value + seq![quote],
        ) == (seq![quote] + value + seq![quote], None::<Seq<char>>),
{
    reveal_strlit(" #");
    if forall|k: int| 0 <= k < value.len() ==> value[k] != '#' {
        lemma_no_hash(value, 0, None, false);
    }
    if value.len() > 0 && !is_space(value.last()) && (forall|k: int|
        0 <= k < value.len() ==> value[k] != '\'' && value[k] != '"' && value[k] != '\\' && value[k]
            != '#') {
        let raw = value + " #"@ + comment;
        let n = value.len() as int;
        assert forall|k: int| 0 <= k < n + 1 implies #[trigger] raw[k] != '\'' && raw[k] != '"' && raw[k]
            != '\\' && (raw[k] != '#' || k == 0 || !is_space(raw[k - 1])) by {
            if k < n {
                assert(raw[k] == value[k]);
            }
        }
        lemma_pass(raw, 0, n + 1, None);
        assert(raw[n] == ' ' && raw[n + 1] == '#');
        assert(comment_start(raw, n + 1, None, false) == Some(n + 1));
        assert(raw.take(n + 1) =~= value.push(' '));
        assert(value.push(' ').drop_last() =~= value);
        assert(trim_end(value) == value);
        assert(trim_end(value.push(' ')) == trim_end(value));
        assert(raw.skip(n + 2) =~= comment);
    }
    if forall|k: int|
        0 <= k < value.len() ==> #[trigger] value[k] != '\'' && value[k] != '"' && value[k]
            != '\\' && (value[k] != '#' || k == 0 || !is_space(value[k - 1])) {
        lemma_pass(value, 0, value.len() as int, None);
    }
    if (quote == '\'' || quote == '"') && forall|k: int|
        0 <= k < value.len() ==> value[k] != quote && value[k] != '\\' {
        let raw = seq![quote] + value + seq![quote];
        let n = raw.len() - 1;
        assert forall|k: int| 1 <= k < n implies raw[k] != quote && raw[k] != '\\' by {
            assert(raw[k] == value[k - 1]);
        }
        assert(raw[0] == quote && raw[n] == quote);
        lemma_pass_quoted(raw, 1, n, quote);
        assert(comment_start(raw, 0, None, false) == comment_start(raw, 1, Some(quote), false));
    }
}

/// A line `KEY=value`, with or without the word `export` before it, adds one variable: it has the
/// comments that stood before it, comes from a template and is not modified.
pub proof fn law_assignments_are_read(progress: EnvProgress, key: Seq<char>, raw: Seq<char>)
    requires
        key.len() > 0,
        trim(key) == key,
        key[0] != '#',
        !starts_with(key + "="@ + raw, "export "@),
        !contains(key, "="@),
        !starts_with(key, "export "@),
        raw.len() > 0 ==> !is_space(raw.last()),
        raw.len() > 0 ==> !is_space(raw[0]),
    ensures
        ({
            let line = key + "="@ + raw;
            let added = EnvVariableView {
                key,
                value: value_and_comment(raw).0,
                comment: trim(
                    join(
                        match value_and_comment(raw).1 {
                            Some(comment) => progress.comments.push(comment),
                            None => progress.comments,
                        },
                        "\n"@,
                    ),
                ),
                source: "template"@,
                modified: false,
            };
            let read = EnvProgress { entries: progress.entries.push(added), comments: seq![] };
            env_step(progress, line) == read && env_step(progress, "export "@ + line) == read
        }),
{
    reveal_strlit("=");
    reveal_strlit("#");
    reveal_strlit("export ");
    assert("="@ =~= seq!['=']);
    assert("#"@ =~= seq!['#']);
    let line = key + "="@ + raw;
    lemma_trim_is_trimmed(key);
    assert(!is_space(key[0]));
    assert(!is_space('='));
    assert(line[0] == key[0]);
    assert(!is_space(line.last()));
    assert(trim_start(line) == line);
    assert(trim_end(line) == line);
    lemma_at_char(line, '#', 0);
    lemma_find(key, "="@);
    assert forall|j: int| 0 <= j < key.len() implies line[j] != '=' by {
        assert(line[j] == key[j]);
        lemma_at_char(key, '=', j);
    }
    assert(line[key.len() as int] == '=');
    lemma_first_char(line, '=', key.len() as int);
    assert(line.take(key.len() as int) =~= key);
    assert(line.skip(key.len() as int + 1) =~= raw);
    if raw.len() > 0 {
        assert(trim_start(raw) == raw);
        assert(trim_end(raw) == raw);
    } else {
        assert(trim_start(raw) == raw);
        assert(trim_end(raw) == raw);
    }
    let other = "export "@ + line;
    assert(other[0] == 'e');
    assert(other.last() == line.last());
    assert(!is_space('e'));
    assert(trim_start(other) == other);
    assert(trim_end(other) == other);
    lemma_at_char(other, '#', 0);
    assert(other.subrange(0, 7) =~= "export "@);
    assert(other.skip(7) =~= line);
}

/// A line that starts with `#` is a comment of the next variable, a blank line parts comments, and a
/// line without an equals sign or without a name before it says nothing.
pub proof fn law_other_lines_are_read(progress: EnvProgress, line: Seq<char>)
    ensures
        trim(line).len() > 0 && trim(line)[0] == '#' ==> env_step(progress, line) == (EnvProgress {
            entries: progress.entries,
            comments: progress.comments.push(trim(trim_start_of(trim(line), "#"@))),
        }),
        trim(line).len() == 0 ==> env_step(progress, line).entries == progress.entries,
        trim(line).len() > 0 && trim(line)[0] != '#' && !contains(trim(line), "="@) ==> env_step(
            progress,
            line,
        ) == progress,
{
    reveal_strlit("#");
    reveal_strlit("=");
    reveal_strlit("export ");
    assert("#"@ =~= seq!['#']);
    assert("="@ =~= seq!['=']);
    let t = trim(line);
    lemma_at_char(t, '#', 0);
    if !contains(t, "="@) {
        let a = crate::env::assignment(t);
        assert(a == t || a == t.skip(7));
        lemma_find(a, "="@);
        if find(a, "="@) is Some {
            let k = find(a, "="@)->0;
            lemma_at_char(a, '=', k);
            let m = if a == t {
                k
            } else {
                k + 7
            };
            assert(t[m] == '=');
            lemma_at_char(t, '=', m);
            assert(at(t, "="@, m));
        }
    }
}

// ---------------------------------------------------------------------------------------------
// Names that call for a port
// ---------------------------------------------------------------------------------------------
/// The named port at `m` is the one that a key calls for: its name stands in the key, and no longer
/// name does; of equally long ones it is the last.
pub open spec fn is_longest_name(ports: Seq<(Seq<char>, u16)>, key: Seq<char>, m: int) -> bool {
    &&& 0 <= m < ports.len()
    &&& contains(key, ports[m].0)
    &&& forall|i: int|
        0 <= i < ports.len() && contains(key, (#[trigger] ports[i]).0) ==> byte_len(ports[i].0)
            < byte_len(ports[m].0) || byte_len(ports[i].0) == byte_len(ports[m].0) && i <= m
}

proof fn lemma_longest(ports: Seq<(Seq<char>, u16)>, key: Seq<char>) -> (m: int)
    ensures
        longest_named(ports, key) is Some ==> is_longest_name(ports, key, m) && longest_named(
            ports,
            key,
        ) == Some(ports[m]),
        longest_named(ports, key) is None ==> forall|i: int|
            0 <= i < ports.len() ==> !contains(key, (#[trigger] ports[i]).0),
    decreases ports.len(),
{
    if ports.len() == 0 {
        0
    } else {
        let rest = ports.drop_last();
        let m = lemma_longest(rest, key);
        let last = ports[ports.len() - 1];
        assert forall|i: int| 0 <= i < rest.len() implies rest[i] == ports[i] by {}
        if longest_named(ports, key) is None {
            assert forall|i: int| 0 <= i < ports.len() implies !contains(
                key,
                (#[trigger] ports[i]).0,
            ) by {
                if i < rest.len() {
                    assert(!contains(key, rest[i].0));
                }
            }
            0
        } else if contains(key, last.0) && (longest_named(rest, key) matches Some(b) ==> byte_len(
            b.0,
        ) <= byte_len(last.0)) {
            assert forall|i: int|
                0 <= i < ports.len() && contains(key, (#[trigger] ports[i]).0) implies byte_len(
                ports[i].0,
            ) < byte_len(last.0) || byte_len(ports[i].0) == byte_len(last.0) && i <= ports.len()
                - 1 by {
                if i < rest.len() {
                    assert(contains(key, rest[i].0));
                }
            }
            ports.len() - 1
        } else {
            assert forall|i: int|
                0 <= i < ports.len() && contains(key, (#[trigger] ports[i]).0) implies byte_len(
                ports[i].0,
            ) < byte_len(ports[m].0) || byte_len(ports[i].0) == byte_len(ports[m].0) && i <= m by {
                if i < rest.len() {
                    assert(contains(key, rest[i].0));
                }
            }
            m
        }
    }
}

/// Among named ports a key calls for the one with the longest name that stands in it, and for none
/// where no name does. A variable whose name holds `URL` and whose value is a URL of this machine
/// takes that port; any other variable stays.
pub proof fn law_longest_name_is_called_for(
    entry: EnvVariableView,
    ports: Seq<(Seq<char>, u16)>,
    m: int,
)
    ensures
        ({
            let key = ascii_upper(entry.key);
            let out = with_named_port(entry, ports);
            &&& is_longest_name(ports, key, m) ==> longest_named(ports, key) == Some(ports[m])
            &&& (forall|i: int| 0 <= i < ports.len() ==> !contains(key, (#[trigger] ports[i]).0))
                ==> longest_named(ports, key) is None && out == entry
            &&& contains(key, "URL"@) && local_url(entry.value) && is_longest_name(ports, key, m)
                ==> out.value == url_with_port(entry.value, ports[m].1 as nat) && out.modified == (
            entry.modified || out.value != entry.value)
            &&& !contains(key, "URL"@) || !local_url(entry.value) ==> out == entry
            &&& out.key == entry.key && out.comment == entry.comment && out.source == entry.source
        }),
{
    let key = ascii_upper(entry.key);
    let k = lemma_longest(ports, key);
    if is_longest_name(ports, key, m) {
        assert(contains(key, ports[m].0));
        assert(k == m);
    }
}

/// A URL of this machine starts with `http` or `https` and one of four hosts, and with nothing else.
pub proof fn law_urls_of_this_machine(value: Seq<char>)
    ensures
        local_url(value) <==> exists|scheme: Seq<char>, host: Seq<char>|
            #![trigger starts_with(value, scheme + "://"@ + host)]
            (scheme == "http"@ || scheme == "https"@) && (host == "127.0.0.1"@ || host
                == "localhost"@ || host == "0.0.0.0"@ || host == "[::1]"@) && starts_with(
                value,
                scheme + "://"@ + host,
            ),
{
    reveal_strlit("127.0.0.1");
    reveal_strlit("localhost");
    reveal_strlit("0.0.0.0");
    reveal_strlit("[::1]");
    reveal_strlit("http");
    reveal_strlit("https");
    reveal_strlit("://");
    reveal_strlit("http://127.0.0.1");
    reveal_strlit("https://127.0.0.1");
    reveal_strlit("http://localhost");
    reveal_strlit("https://localhost");
    reveal_strlit("http://0.0.0.0");
    reveal_strlit("https://0.0.0.0");
    reveal_strlit("http://[::1]");
    reveal_strlit("https://[::1]");
    assert("http"@ + "://"@ + "127.0.0.1"@ =~= "http://127.0.0.1"@);
    assert("https"@ + "://"@ + "127.0.0.1"@ =~= "https://127.0.0.1"@);
    assert("http"@ + "://"@ + "localhost"@ =~= "http://localhost"@);
    assert("https"@ + "://"@ + "localhost"@ =~= "https://localhost"@);
    assert("http"@ + "://"@ + "0.0.0.0"@ =~= "http://0.0.0.0"@);
    assert("https"@ + "://"@ + "0.0.0.0"@ =~= "https://0.0.0.0"@);
    assert("http"@ + "://"@ + "[::1]"@ =~= "http://[::1]"@);
    assert("https"@ + "://"@ + "[::1]"@ =~= "https://[::1]"@);
}

// ---------------------------------------------------------------------------------------------
// Ports that are taken or described
// ---------------------------------------------------------------------------------------------
/// The ports that other instances hold are exactly those above zero in the URLs of their services.
pub proof fn law_assigned_ports_are_all_there(services: Seq<(Seq<char>, Seq<char>)>, port: u16)
    ensures
        assigned_ports(services).contains(port) <==> port > 0 && exists|i: int|
            0 <= i < services.len() && url_port((#[trigger] services[i]).1) == Some(port as nat),
    decreases services.len(),
{
    if services.len() > 0 {
        let rest = services.drop_last();
        let last = services[services.len() - 1];
        law_assigned_ports_are_all_there(rest, port);
        let before = assigned_ports(rest);
        let all = assigned_ports(services);
        if all.contains(port) {
            let k = choose|k: int| 0 <= k < all.len() && all[k] == port;
            if k < before.len() {
                assert(before[k] == port);
                assert(before.contains(port));
                let i = choose|i: int|
                    0 <= i < rest.len() && url_port((#[trigger] rest[i]).1) == Some(port as nat);
                assert(services[i] == rest[i]);
            } else {
                assert(url_port(last.1) == Some(port as nat));
            }
        }
        if port > 0 && exists|i: int|
            0 <= i < services.len() && url_port((#[trigger] services[i]).1) == Some(port as nat) {
            let i = choose|i: int|
                0 <= i < services.len() && url_port((#[trigger] services[i]).1) == Some(
                    port as nat,
                );
            if i < rest.len() {
                assert(rest[i] == services[i]);
                assert(before.contains(port));
                let k = choose|k: int| 0 <= k < before.len() && before[k] == port;
                assert(all[k] == port);
            } else {
                assert(all[before.len() as int] == port);
            }
        }
    }
}

/// A line `name_port: 8000` of a description gives that port under that name, whatever the case of
/// the name and the white space round the parts. A line whose name does not end so gives none.
pub proof fn law_described_ports_are_read(name: Seq<char>, port: u16, line: Seq<char>)
    ensures
        port > 0 && name.len() > 0 && trim(name) == name && !contains(name, ":"@) && ends_with(
            ascii_lower(name),
            "_port"@,
        ) ==> described_port(name + ": "@ + decimal(port as nat)) == Some((name, port)),
        described_port(line) matches Some((key, value)) ==> value > 0 && ends_with(
            ascii_lower(key),
            "_port"@,
        ),
{
    reveal_strlit(":");
    reveal_strlit(": ");
    assert(":"@ =~= seq![':']);
    lemma_decimal_value(port as nat);
    lemma_parse_decimal(port as nat, 65535);
    let d = decimal(port as nat);
    if name.len() > 0 && trim(name) == name && !contains(name, ":"@) {
        let text = name + ": "@ + d;
        lemma_trim_is_trimmed(name);
        assert(is_digit(d.last()));
        assert(is_digit(d[0]));
        assert(text[0] == name[0]);
        assert(text.last() == d.last());
        assert(trim_start(text) == text);
        assert(trim_end(text) == text);
        assert forall|j: int| 0 <= j < name.len() implies text[j] != ':' by {
            assert(text[j] == name[j]);
            lemma_at_char(name, ':', j);
        }
        assert(text[name.len() as int] == ':');
        lemma_first_char(text, ':', name.len() as int);
        assert(text.take(name.len() as int) =~= name);
        let value = text.skip(name.len() as int + 1);
        assert(value =~= seq![' '] + d);
        assert(value.skip(1) =~= d);
        assert(trim_start(d) == d);
        assert(trim_start(value) == d);
        assert(trim_end(d) == d);
    }
}

// ---------------------------------------------------------------------------------------------
// Variables that take up ports
// ---------------------------------------------------------------------------------------------
/// The variable at `i` is the first with this name, in whatever case.
pub open spec fn is_first_named(entries: Seq<EnvVariableView>, key: Seq<char>, i: int) -> bool {
    &&& 0 <= i < entries.len()
    &&& ascii_upper(entries[i].key) == key
    &&& forall|j: int| 0 <= j < i ==> ascii_upper((#[trigger] entries[j]).key) != key
}

/// No variable has this name, in whatever case.
pub open spec fn is_unnamed(entries: Seq<EnvVariableView>, key: Seq<char>) -> bool {
    forall|j: int| 0 <= j < entries.len() ==> ascii_upper((#[trigger] entries[j]).key) != key
}

pub proof fn lemma_index(entries: Seq<EnvVariableView>, key: Seq<char>, i: int)
    requires
        0 <= i,
        forall|j: int| 0 <= j < i && j < entries.len() ==> ascii_upper((#[trigger] entries[j]).key)
            != key,
    ensures
        match index_with_upper_key(entries, key, i) {
            Some(k) => is_first_named(entries, key, k),
            None => is_unnamed(entries, key),
        },
    decreases entries.len() - i,
{
    if i < entries.len() && ascii_upper(entries[i].key) != key {
        lemma_index(entries, key, i + 1);
    }
}

pub proof fn lemma_last(entries: Seq<EnvVariableView>, key: Seq<char>, k: int)
    ensures
        is_unnamed(entries, key) ==> last_with_upper_key(entries, key) is None,
        0 <= k < entries.len() && ascii_upper(entries[k].key) == key && (forall|j: int|
            k < j < entries.len() ==> ascii_upper((#[trigger] entries[j]).key) != key)
            ==> last_with_upper_key(entries, key) == Some(entries[k]),
    decreases entries.len(),
{
    if entries.len() > 0 {
        let rest = entries.drop_last();
        lemma_last(rest, key, k);
        let last = entries[entries.len() - 1];
        assert forall|j: int| 0 <= j < rest.len() implies rest[j] == entries[j] by {}
        if is_unnamed(entries, key) {
            assert(ascii_upper(last.key) != key);
            assert(is_unnamed(rest, key));
        }
        if 0 <= k < entries.len() - 1 && ascii_upper(entries[k].key) == key && (forall|j: int|
            k < j < entries.len() ==> ascii_upper((#[trigger] entries[j]).key) != key) {
            assert(ascii_upper(last.key) != key);
            assert(rest[k] == entries[k]);
        }
    }
}

/// A variable of a second file takes the value of the last variable of the same name, in whatever
/// case, of the first; its name, comment and source stay. One that has no such variable and is no
/// URL of this machine stays as it is.
pub proof fn law_same_names_have_same_values(
    entry: EnvVariableView,
    root: Seq<EnvVariableView>,
    k: int,
)
    ensures
        0 <= k < root.len() && ascii_upper(root[k].key) == ascii_upper(entry.key) && (forall|j: int|
            k < j < root.len() ==> ascii_upper((#[trigger] root[j]).key) != ascii_upper(entry.key))
            ==> synchronized_entry(entry, root) == (EnvVariableView {
            value: root[k].value,
            ..entry
        }),
        is_unnamed(root, ascii_upper(entry.key)) && !local_url(entry.value) ==> synchronized_entry(
            entry,
            root,
        ) == entry,
        is_unnamed(root, ascii_upper(entry.key)) && local_url(entry.value) ==> synchronized_entry(
            entry,
            root,
        ).value == entry.value || exists|p: u16|
            #![trigger url_with_port(entry.value, p as nat)]
            synchronized_entry(entry, root).value == url_with_port(entry.value, p as nat),
{
    lemma_last(root, ascii_upper(entry.key), k);
}

/// The port of a service is in the first variable of its name: in one that was there, or in one that
/// is added at the end. No other variable changes.
pub proof fn law_service_variable_is_set(
    entries: Seq<EnvVariableView>,
    key: Seq<char>,
    port: u16,
)
    requires
        ascii_upper(key) == key,
    ensures
        ({
            let out = with_service_variable(entries, key, port);
            &&& exists|i: int| #[trigger]
                is_first_named(out, key, i) && out[i].value == decimal(port as nat)
            &&& is_unnamed(entries, key) ==> out.len() == entries.len() + 1 && out.last().key == key
                && out.last().modified
            &&& !is_unnamed(entries, key) ==> out.len() == entries.len()
            &&& forall|j: int|
                0 <= j < entries.len() && !is_first_named(entries, key, j) ==> #[trigger] out[j]
                    == entries[j]
            &&& forall|j: int|
                0 <= j < entries.len() ==> (#[trigger] out[j]).key == entries[j].key
                    && out[j].comment == entries[j].comment && out[j].source == entries[j].source
                    && out[j].modified == (entries[j].modified || out[j].value != entries[j].value)
        }),
{
    lemma_index(entries, key, 0);
    let out = with_service_variable(entries, key, port);
    match index_with_upper_key(entries, key, 0) {
        Some(i) => {
            assert forall|j: int| 0 <= j < i implies ascii_upper((#[trigger] out[j]).key) != key by {
                assert(ascii_upper(entries[j].key) != key);
            }
            assert(is_first_named(out, key, i));
        },
        None => {
            let n = entries.len() as int;
            assert forall|j: int| 0 <= j < n implies ascii_upper((#[trigger] out[j]).key) != key by {
                assert(ascii_upper(entries[j].key) != key);
            }
            assert(is_first_named(out, key, n));
        },
    }
}

/// Every service has its port in the first variable of its name once they all were written.
pub proof fn law_every_service_has_its_variable(
    entries: Seq<EnvVariableView>,
    ports: Seq<(Seq<char>, u16)>,
)
    requires
        forall|m: int| 0 <= m < ports.len() ==> ascii_upper((#[trigger] ports[m]).0) == ports[m].0,
        forall|m: int, n: int|
            0 <= m < n < ports.len() ==> (#[trigger] ports[m]).0 != (#[trigger] ports[n]).0,
    ensures
        ({
            let out = with_service_variables(entries, ports);
            &&& out.len() >= entries.len()
            &&& forall|m: int|
                0 <= m < ports.len() ==> exists|i: int|
                    is_first_named(out, (#[trigger] ports[m]).0, i) && (#[trigger] out[i]).value
                        == decimal(ports[m].1 as nat)
            &&& forall|j: int|
                0 <= j < entries.len() && (forall|m: int|
                    0 <= m < ports.len() ==> (#[trigger] ports[m]).0 != ascii_upper(
                        entries[j].key,
                    )) ==> #[trigger] out[j] == entries[j]
            &&& forall|j: int| 0 <= j < entries.len() ==> (#[trigger] out[j]).key == entries[j].key
        }),
    decreases ports.len(),
{
    if ports.len() > 0 {
        let rest = ports.drop_last();
        let last = ports[ports.len() - 1];
        assert forall|m: int| 0 <= m < rest.len() implies rest[m] == ports[m] by {}
        law_every_service_has_its_variable(entries, rest);
        let before = with_service_variables(entries, rest);
        let out = with_service_variables(entries, ports);
        law_service_variable_is_set(before, last.0, last.1);
        assert forall|m: int| 0 <= m < ports.len() implies exists|i: int|
            is_first_named(out, (#[trigger] ports[m]).0, i) && (#[trigger] out[i]).value == decimal(
                ports[m].1 as nat,
            ) by {
            if m < rest.len() {
                assert(rest[m].0 != last.0);
                let i = choose|i: int|
                    is_first_named(before, rest[m].0, i) && (#[trigger] before[i]).value == decimal(
                        rest[m].1 as nat,
                    );
                assert(!is_first_named(before, last.0, i));
                assert(out[i] == before[i]);
                assert forall|j: int| 0 <= j < i implies ascii_upper((#[trigger] out[j]).key)
                    != ports[m].0 by {
                    assert(out[j].key == before[j].key);
                    assert(ascii_upper(before[j].key) != rest[m].0);
                }
                assert(is_first_named(out, ports[m].0, i));
            } else {
                let i = choose|i: int| #[trigger]
                    is_first_named(out, last.0, i) && out[i].value == decimal(last.1 as nat);
                assert(out[i].value == decimal(ports[m].1 as nat));
            }
        }
        assert forall|j: int|
            0 <= j < entries.len() && (forall|m: int|
                0 <= m < ports.len() ==> (#[trigger] ports[m]).0 != ascii_upper(
                    entries[j].key,
                )) implies #[trigger] out[j] == entries[j] by {
            assert forall|m: int| 0 <= m < rest.len() implies (#[trigger] rest[m]).0 != ascii_upper(
                entries[j].key,
            ) by {
                assert(ports[m].0 != ascii_upper(entries[j].key));
            }
            assert(before[j] == entries[j]);
            assert(ports[ports.len() - 1].0 != ascii_upper(entries[j].key));
            assert(!is_first_named(before, last.0, j));
        }
        assert forall|j: int| 0 <= j < entries.len() implies (#[trigger] out[j]).key
            == entries[j].key by {
            assert(out[j].key == before[j].key);
        }
    }
}

/// A URL variable takes the port of the last service whose name stands in its own; other variables
/// stay as they are.
pub proof fn law_urls_take_the_ports_of_services(
    entry: EnvVariableView,
    ports: Seq<(Seq<char>, u16)>,
    k: int,
)
    ensures
        !contains(ascii_upper(entry.key), "URL"@) ==> with_service_urls(entry, ports) == entry,
        (forall|m: int|
            0 <= m < ports.len() ==> !contains(
                ascii_upper(entry.key),
                trim_end_all((#[trigger] ports[m]).0, "_PORT"@),
            )) ==> with_service_urls(entry, ports) == entry,
        contains(ascii_upper(entry.key), "URL"@) && 0 <= k < ports.len() && contains(
            ascii_upper(entry.key),
            trim_end_all(ports[k].0, "_PORT"@),
        ) && (forall|m: int|
            k < m < ports.len() ==> !contains(
                ascii_upper(entry.key),
                trim_end_all((#[trigger] ports[m]).0, "_PORT"@),
            )) ==> with_service_urls(entry, ports).value == url_with_port(
            entry.value,
            ports[k].1 as nat,
        ),
        with_service_urls(entry, ports).key == entry.key,
        with_service_urls(entry, ports).value == entry.value || exists|p: u16|
            #![trigger url_with_port(entry.value, p as nat)]
            with_service_urls(entry, ports).value == url_with_port(entry.value, p as nat),
    decreases ports.len(),
{
    if ports.len() > 0 {
        let rest = ports.drop_last();
        let last = ports[ports.len() - 1];
        law_urls_take_the_ports_of_services(entry, rest, k);
        let before = with_service_urls(entry, rest);
        let key = ascii_upper(entry.key);
        assert forall|m: int| 0 <= m < rest.len() implies rest[m] == ports[m] by {}
        if before.value != entry.value {
            let p = choose|p: u16|
                #![trigger url_with_port(entry.value, p as nat)]
                before.value == url_with_port(entry.value, p as nat);
            crate::urls::law_last_port_stays(entry.value, p as nat, last.1 as nat);
        }
        if forall|m: int|
            0 <= m < ports.len() ==> !contains(
                key,
                trim_end_all((#[trigger] ports[m]).0, "_PORT"@),
            ) {
            assert forall|m: int| 0 <= m < rest.len() implies !contains(
                key,
                trim_end_all((#[trigger] rest[m]).0, "_PORT"@),
            ) by {
                assert(!contains(key, trim_end_all(ports[m].0, "_PORT"@)));
            }
            assert(!contains(key, trim_end_all(ports[ports.len() - 1].0, "_PORT"@)));
        }
        if 0 <= k < rest.len() && contains(key, trim_end_all(ports[k].0, "_PORT"@)) && (forall|
            m: int,
        |
            k < m < ports.len() ==> !contains(
                key,
                trim_end_all((#[trigger] ports[m]).0, "_PORT"@),
            )) {
            assert forall|m: int| k < m < rest.len() implies !contains(
                key,
                trim_end_all((#[trigger] rest[m]).0, "_PORT"@),
            ) by {
                assert(!contains(key, trim_end_all(ports[m].0, "_PORT"@)));
            }
            assert(!contains(key, trim_end_all(ports[ports.len() - 1].0, "_PORT"@)));
        }
    }
}

/// What becomes of a chosen port. A variable that had its name takes it. Without one, a variable of
/// another name that holds the port already stands for it, and nothing changes; where the port moved,
/// every variable that held the old one, as a number or in a URL, follows it; and else a variable is
/// added for it.
pub proof fn law_chosen_port_reaches_the_variables(
    entries: Seq<EnvVariableView>,
    known: Seq<EnvVariableView>,
    key: Seq<char>,
    port: u16,
    changes: Seq<PortChangeView>,
    i: int,
    c: int,
)
    ensures
        ({
            let out = with_chosen_port(entries, known, key, port, changes);
            let value = decimal(port as nat);
            let held = exists|k: int|
                0 <= k < entries.len() && ascii_upper((#[trigger] entries[k]).key) != key && trim(
                    entries[k].value,
                ) == value;
            let moved = 0 <= c < changes.len() && changes[c].key == key && forall|k: int|
                0 <= k < c ==> (#[trigger] changes[k]).key != key;
            &&& !is_unnamed(known, key) && is_first_named(entries, key, i) ==> out.len()
                == entries.len() && out[i].value == value && (forall|j: int|
                0 <= j < entries.len() && j != i ==> #[trigger] out[j] == entries[j])
            &&& is_unnamed(known, key) && held ==> out == entries
            &&& is_unnamed(known, key) && !held && moved ==> out.len() == entries.len() && forall|
                j: int,
            |
                0 <= j < entries.len() ==> {
                    let was = entries[j].value;
                    let now = (#[trigger] out[j]).value;
                    if trim(was) == decimal(changes[c].old_port as nat) {
                        now == value && out[j].modified
                    } else if url_port(was) == Some(changes[c].old_port as nat) {
                        now == url_with_port(was, port as nat)
                    } else {
                        out[j] == entries[j]
                    }
                }
            &&& is_unnamed(known, key) && !held && (forall|k: int|
                0 <= k < changes.len() ==> (#[trigger] changes[k]).key != key) ==> out
                == entries.push(
                EnvVariableView {
                    key,
                    value,
                    comment: seq![],
                    source: "describe"@,
                    modified: true,
                },
            )
        }),
{
    lemma_index(known, key, 0);
    lemma_index(entries, key, 0);
    if is_first_named(entries, key, i) {
        match index_with_upper_key(entries, key, 0) {
            Some(k) => {
                if k < i {
                    assert(ascii_upper(entries[k].key) != key);
                } else if i < k {
                    assert(ascii_upper(entries[i].key) != key);
                }
            },
            None => {
                assert(ascii_upper(entries[i].key) != key);
            },
        }
    }
    if !is_unnamed(known, key) {
        let j = choose|j: int|
            0 <= j < known.len() && ascii_upper((#[trigger] known[j]).key) == key;
    }
    lemma_change(changes, key, 0);
    match crate::deploy::change_under(changes, key, 0) {
        Some(change) => {
            if 0 <= c < changes.len() && changes[c].key == key && forall|k: int|
                0 <= k < c ==> (#[trigger] changes[k]).key != key {
                lemma_change_is(changes, key, c, 0);
            }
        },
        None => {
            if 0 <= c < changes.len() && changes[c].key == key {
                assert(changes[c].key != key);
            }
        },
    }
}

proof fn lemma_change(changes: Seq<PortChangeView>, key: Seq<char>, i: int)
    requires
        0 <= i,
    ensures
        crate::deploy::change_under(changes, key, i) is None ==> forall|k: int|
            i <= k < changes.len() ==> (#[trigger] changes[k]).key != key,
        crate::deploy::change_under(changes, key, i) is Some ==> exists|k: int|
            i <= k < changes.len() && (#[trigger] changes[k]).key == key,
    decreases changes.len() - i,
{
    if i < changes.len() {
        if changes[i].key != key {
            lemma_change(changes, key, i + 1);
        }
    }
}

proof fn lemma_change_is(changes: Seq<PortChangeView>, key: Seq<char>, c: int, i: int)
    requires
        0 <= i <= c < changes.len(),
        changes[c].key == key,
        forall|k: int| i <= k < c ==> (#[trigger] changes[k]).key != key,
    ensures
        crate::deploy::change_under(changes, key, i) == Some(changes[c]),
    decreases c - i,
{
    if i < c {
        lemma_change_is(changes, key, c, i + 1);
    }
}

/// Tracing is turned off where the variables say nothing of it, and only there.
pub proof fn law_tracing_is_off_by_default(entries: Seq<EnvVariableView>)
    ensures
        is_unnamed(entries, "LANGSMITH_TRACING"@) ==> with_tracing(entries).len() == entries.len()
            + 1 && with_tracing(entries).take(entries.len() as int) == entries && with_tracing(
            entries,
        ).last().key == "LANGSMITH_TRACING"@ && with_tracing(entries).last().value == "false"@,
        !is_unnamed(entries, "LANGSMITH_TRACING"@) ==> with_tracing(entries) == entries,
{
    lemma_index(entries, "LANGSMITH_TRACING"@, 0);
    assert(with_tracing(entries).take(entries.len() as int) =~= entries);
}

// ---------------------------------------------------------------------------------------------
// The environment of a process
// ---------------------------------------------------------------------------------------------
/// A file is refused exactly where a variable has an equals sign or a zero in its name, or a zero in
/// its value; the first such variable is named.
pub proof fn law_unusable_variables_are_refused(entries: Seq<EnvVariableView>, i: int)
    requires
        0 <= i,
    ensures
        match first_unusable(entries, i) {
            Some(k) => i <= k < entries.len() && (entries[k].key.contains('=')
                || entries[k].key.contains('\0') || entries[k].value.contains('\0')) && (forall|
                j: int,
            |
                i <= j < k ==> !(#[trigger] entries[j]).key.contains('=')
                    && !entries[j].key.contains('\0') && !entries[j].value.contains('\0')),
            None => forall|j: int|
                i <= j < entries.len() ==> !(#[trigger] entries[j]).key.contains('=')
                    && !entries[j].key.contains('\0') && !entries[j].value.contains('\0'),
        },
    decreases entries.len() - i,
{
    if i < entries.len() {
        lemma_unusable(entries[i]);
        if !unusable(entries[i]) {
            law_unusable_variables_are_refused(entries, i + 1);
        }
    }
}

proof fn lemma_unusable(entry: EnvVariableView)
    ensures
        unusable(entry) <==> entry.key.contains('=') || entry.key.contains('\0')
            || entry.value.contains('\0'),
{
    reveal_strlit("=\0");
    reveal_strlit("\0");
    assert("\0"@ =~= seq!['\0']);
    let set = "=\0"@;
    assert(set[0] == '=' && set[1] == '\0');
    lemma_find_any_from(entry.key, set, 0);
    if find_any(entry.key, set) is Some {
        let k = find_any(entry.key, set)->0;
        assert(set.contains(entry.key[k]));
        assert(entry.key[k] == '=' || entry.key[k] == '\0');
    } else {
        if entry.key.contains('=') {
            let k = choose|k: int| 0 <= k < entry.key.len() && entry.key[k] == '=';
            assert(!set.contains(entry.key[k]));
        }
        if entry.key.contains('\0') {
            let k = choose|k: int| 0 <= k < entry.key.len() && entry.key[k] == '\0';
            assert(!set.contains(entry.key[k]));
        }
    }
    if contains(entry.value, "\0"@) {
        let k = choose|k: int| at(entry.value, "\0"@, k);
        lemma_at_char(entry.value, '\0', k);
    }
    if entry.value.contains('\0') {
        let k = choose|k: int| 0 <= k < entry.value.len() && entry.value[k] == '\0';
        lemma_at_char(entry.value, '\0', k);
        assert(at(entry.value, "\0"@, k));
    }
}

/// What a process gets besides the variables of its file. A frontend gets the address of the server
/// unless the file names one: at the port of the backend where the file has such a variable, else at
/// that of the graph server, and none where that variable holds no port. A mirror of models is named
/// exactly where the original cannot be reached and the file names none.
pub proof fn law_added_environment(entries: Seq<EnvVariableView>, reachable: bool, i: int)
    ensures
        ({
            let added = added_environment(entries, reachable);
            let mirror = is_unnamed(entries, "HF_ENDPOINT"@) && !reachable;
            let address = |p: nat|
                ("VITE_LANGGRAPH_API_URL"@, "http://127.0.0.1:"@ + decimal(p));
            let open = is_unnamed(entries, "VITE_LANGGRAPH_API_URL"@);
            &&& mirror <==> added.contains(("HF_ENDPOINT"@, "https://hf-mirror.com"@))
            &&& open && is_first_named(entries, "BACKEND_PORT"@, i) && port_value(
                entries[i].value,
            ) is Some ==> added.contains(address(port_value(entries[i].value)->0))
            &&& open && is_unnamed(entries, "BACKEND_PORT"@) && is_first_named(
                entries,
                "LANGGRAPH_PORT"@,
                i,
            ) && port_value(entries[i].value) is Some ==> added.contains(
                address(port_value(entries[i].value)->0),
            )
            &&& !open ==> forall|k: int|
                0 <= k < added.len() ==> (#[trigger] added[k]).0 == "HF_ENDPOINT"@
        }),
{
    reveal_strlit("HF_ENDPOINT");
    reveal_strlit("VITE_LANGGRAPH_API_URL");
    assert("HF_ENDPOINT"@[0] == 'H' && "VITE_LANGGRAPH_API_URL"@[0] == 'V');
    lemma_index(entries, "HF_ENDPOINT"@, 0);
    lemma_index(entries, "VITE_LANGGRAPH_API_URL"@, 0);
    lemma_index(entries, "BACKEND_PORT"@, 0);
    lemma_index(entries, "LANGGRAPH_PORT"@, 0);
    let added = added_environment(entries, reachable);
    let n = added.len() as int;
    if is_unnamed(entries, "HF_ENDPOINT"@) && !reachable {
        assert(added[n - 1] == ("HF_ENDPOINT"@, "https://hf-mirror.com"@));
    } else if added.contains(("HF_ENDPOINT"@, "https://hf-mirror.com"@)) {
        let k = choose|k: int|
            0 <= k < added.len() && added[k] == ("HF_ENDPOINT"@, "https://hf-mirror.com"@);
        assert(added[k].0 == "VITE_LANGGRAPH_API_URL"@);
    }
    if is_first_named(entries, "BACKEND_PORT"@, i) {
        lemma_first_is_only(entries, "BACKEND_PORT"@, i);
        if port_value(entries[i].value) is Some && is_unnamed(entries, "VITE_LANGGRAPH_API_URL"@) {
            assert(added[0].0 == "VITE_LANGGRAPH_API_URL"@);
        }
    }
    if is_first_named(entries, "LANGGRAPH_PORT"@, i) && is_unnamed(entries, "BACKEND_PORT"@) {
        lemma_first_is_only(entries, "LANGGRAPH_PORT"@, i);
        if port_value(entries[i].value) is Some && is_unnamed(entries, "VITE_LANGGRAPH_API_URL"@) {
            assert(added[0].0 == "VITE_LANGGRAPH_API_URL"@);
        }
    }
}

pub proof fn lemma_first_is_only(entries: Seq<EnvVariableView>, key: Seq<char>, i: int)
    requires
        is_first_named(entries, key, i),
    ensures
        index_with_upper_key(entries, key, 0) == Some(i),
{
    lemma_index(entries, key, 0);
    match index_with_upper_key(entries, key, 0) {
        Some(k) => {
            if k < i {
                assert(ascii_upper(entries[k].key) != key);
            } else if i < k {
                assert(ascii_upper(entries[i].key) != key);
            }
        },
        None => {
            assert(ascii_upper(entries[i].key) != key);
        },
    }
}

// ---------------------------------------------------------------------------------------------
// The variables of a frontend
// ---------------------------------------------------------------------------------------------
/// The file of a frontend has every variable of its example, in their order, and behind them every
/// variable of its own that the example does not have, and no other.
pub proof fn law_frontend_keeps_its_variables(
    example: Seq<EnvVariableView>,
    existing: Seq<EnvVariableView>,
    root: Seq<EnvVariableView>,
)
    ensures
        ({
            let out = frontend_variables(example, existing, root);
            let own = existing.filter(
                |e: EnvVariableView| is_unnamed(example, ascii_upper(e.key)),
            );
            &&& out.len() == example.len() + own.len()
            &&& forall|i: int| 0 <= i < example.len() ==> (#[trigger] out[i]).key == example[i].key
            &&& forall|i: int|
                0 <= i < own.len() ==> #[trigger] out[example.len() + i] == synchronized_entry(
                    own[i],
                    root,
                )
        }),
{
    let own = existing.filter(|e: EnvVariableView| is_unnamed(example, ascii_upper(e.key)));
    lemma_not_in_example(existing, example);
    let out = frontend_variables(example, existing, root);
    assert(own == not_in_example(existing, example));
}

proof fn lemma_not_in_example(existing: Seq<EnvVariableView>, example: Seq<EnvVariableView>)
    ensures
        not_in_example(existing, example) == existing.filter(
            |e: EnvVariableView| is_unnamed(example, ascii_upper(e.key)),
        ),
    decreases existing.len(),
{
    reveal(Seq::filter);
    if existing.len() > 0 {
        lemma_not_in_example(existing.drop_last(), example);
        let key = ascii_upper(existing.last().key);
        lemma_index(example, key, 0);
        if index_with_upper_key(example, key, 0) is Some {
            let k = index_with_upper_key(example, key, 0)->0;
            assert(ascii_upper(example[k].key) == key);
        }
    }
}

/// A variable of an example takes the value that the file has saved under its name, in whatever
/// case, the last one where there are several, and its comment unless that is blank.
pub proof fn law_saved_values_are_kept(
    entry: EnvVariableView,
    existing: Seq<EnvVariableView>,
    k: int,
)
    ensures
        is_unnamed(existing, ascii_upper(entry.key)) ==> with_saved(entry, existing) == entry,
        0 <= k < existing.len() && ascii_upper(existing[k].key) == ascii_upper(entry.key) && (
        forall|j: int|
            k < j < existing.len() ==> ascii_upper((#[trigger] existing[j]).key) != ascii_upper(
                entry.key,
            )) ==> with_saved(entry, existing).value == existing[k].value && with_saved(
            entry,
            existing,
        ).key == entry.key && with_saved(entry, existing).comment == (if trim(
            existing[k].comment,
        ).len() > 0 {
            existing[k].comment
        } else {
            entry.comment
        }),
{
    lemma_last(existing, ascii_upper(entry.key), k);
}

} // verus!
