//! The lifecycle manifest: keeping its lines in step with an environment file.
use vstd::prelude::*;
use vstd::string::*;

use crate::env::{env_views, last_position_of_key, last_with_key, EnvVariable, EnvVariableView};
use crate::ports::{is_local_service_port_key, local_port_key};
use crate::search::{
    contains, ends_with, find, find_any, text_has, has_prefix, head, position, position_any, starts_with,
    tail, trim, trim_end, trim_of, trim_start, trimmed, trimmed_end, trimmed_of, trimmed_start,
    without_prefix, without_suffix,
};
use crate::rows::{body_and_ending, concatenated, lemma_full_lines, line_body, line_ending};
use crate::services::{first_env_port, service_env_port, service_port_keys};
use crate::split::{full_lines, split_once, split_text_once, text_full_lines};
use crate::text::{
    chars_of, list_has, list_of_one, list_of_two, opt_text, owned, same, text_of_range, texts,
};
use crate::urls::{replace_url_port, url_with_port};

verus! {

// ---------------------------------------------------------------------------------------------
// Section headers
// ---------------------------------------------------------------------------------------------
/// The group and the name in a section header such as `[services.app]`.
pub open spec fn section(header: Seq<char>) -> Option<(Seq<char>, Seq<char>)> {
    if !starts_with(header, "["@) {
        None
    } else {
        let rest = header.skip(1);
        if !ends_with(rest, "]"@) {
            None
        } else {
            match split_once(trim(rest.take(rest.len() - 1)), "."@) {
                Some((group, name)) => Some((trim(group), trim_of(trim(name), "'\""@))),
                None => None,
            }
        }
    }
}

/// The service that a section is about.
pub open spec fn section_service(header: Seq<char>) -> Option<Seq<char>> {
    match section(header) {
        Some((group, name)) => if group == "services"@ || group == "checks"@ {
            Some(name)
        } else {
            None
        },
        None => None,
    }
}

/// The variable that a section is about.
pub open spec fn section_env_key(header: Seq<char>) -> Option<Seq<char>> {
    match section(header) {
        Some((group, name)) => if group == "env"@ {
            Some(name)
        } else {
            None
        },
        None => None,
    }
}

fn section_parts(header: &str) -> (r: Option<(String, String)>)
    ensures
        match r {
            Some((group, name)) => section(header@) == Some((group@, name@)),
            None => section(header@) is None,
        },
{
    proof {
        reveal_strlit("[");
        reveal_strlit("]");
    }
    match without_prefix(header, "[") {
        Some(rest) => match without_suffix(rest.as_str(), "]") {
            Some(inner) => {
                let body: String = trimmed(inner.as_str());
                match split_text_once(body.as_str(), ".") {
                    Some((group, name)) => {
                        let plain: String = trimmed(name.as_str());
                        Some((trimmed(group.as_str()), trimmed_of(plain.as_str(), "'\"")))
                    },
                    None => None,
                }
            },
            None => None,
        },
        None => None,
    }
}

/// The service that a section is about.
pub fn lifecycle_section_service(header: &str) -> (r: Option<String>)
    ensures
        match r {
            Some(name) => section_service(header@) == Some(name@),
            None => section_service(header@) is None,
        },
{
    match section_parts(header) {
        Some((group, name)) => if same(group.as_str(), "services") || same(
            group.as_str(),
            "checks",
        ) {
            Some(name)
        } else {
            None
        },
        None => None,
    }
}

/// The variable that a section is about.
pub fn lifecycle_section_env_key(header: &str) -> (r: Option<String>)
    ensures
        match r {
            Some(name) => section_env_key(header@) == Some(name@),
            None => section_env_key(header@) is None,
        },
{
    match section_parts(header) {
        Some((group, name)) => if same(group.as_str(), "env") {
            Some(name)
        } else {
            None
        },
        None => None,
    }
}

// ---------------------------------------------------------------------------------------------
// String values
// ---------------------------------------------------------------------------------------------
/// Where the string value of a line `key = "value"` stands, for one of `keys`: between the first
/// quote behind the equals sign and the next quote of the same kind.
pub open spec fn string_value(line: Seq<char>, keys: Seq<Seq<char>>) -> Option<(int, int)> {
    match find(line, "="@) {
        None => None,
        Some(equals) => if !keys.contains(trim(line.take(equals))) {
            None
        } else {
            let value = line.skip(equals + 1);
            match find_any(value, "'\""@) {
                None => None,
                Some(open) => match find(value.skip(open + 1), seq![value[open]]) {
                    None => None,
                    Some(n) => Some((equals + open + 2, equals + open + 2 + n)),
                },
            }
        },
    }
}

/// `line` with the string value of one of `keys` replaced.
pub open spec fn with_string_value(
    line: Seq<char>,
    keys: Seq<Seq<char>>,
    updated: Seq<char>,
) -> Seq<char> {
    match string_value(line, keys) {
        Some((from, to)) => line.take(from) + updated + line.skip(to),
        None => line,
    }
}

/// Where the string value of one of `keys` stands in a line.
pub fn string_value_range(line: &str, keys: &Vec<String>) -> (r: Option<(usize, usize)>)
    ensures
        match r {
            Some((from, to)) => string_value(line@, texts(keys@)) == Some((from as int, to as int))
                && from <= to <= line@.len(),
            None => string_value(line@, texts(keys@)) is None,
        },
{
    proof {
        reveal_strlit("=");
    }
    let equals: usize = match position(line, "=") {
        Some(k) => k,
        None => {
            return None;
        },
    };
    let before: String = head(line, equals);
    let key: String = trimmed(before.as_str());
    if !list_has(keys, key.as_str()) {
        return None;
    }
    let value: String = tail(line, equals + 1);
    match position_any(value.as_str(), "'\"") {
        Some(open) => {
            let chars: Vec<char> = chars_of(value.as_str());
            let mut quote: String = String::new();
            quote.push(chars[open]);
            proof {
                assert(quote@ =~= seq![value@[open as int]]);
            }
            let rest: String = tail(value.as_str(), open + 1);
            match position(rest.as_str(), quote.as_str()) {
                Some(n) => Some((equals + open + 2, equals + open + 2 + n)),
                None => None,
            }
        },
        None => None,
    }
}

/// `line` with the string value of one of `keys` replaced by `updated`; the line itself where it
/// has no such value.
pub fn replace_toml_string_line(line: &str, keys: &Vec<String>, updated: &str) -> (out: String)
    ensures
        out@ == with_string_value(line@, texts(keys@), updated@),
{
    match string_value_range(line, keys) {
        Some((from, to)) => {
            let mut out: String = head(line, from);
            out.append(updated);
            let rest: String = tail(line, to);
            out.append(rest.as_str());
            out
        },
        None => owned(line),
    }
}

/// A line `url = ..` or `target = ..` with the port of its URL set. A URL with a variable
/// reference stays as it is.
pub open spec fn url_line(line: Seq<char>, port: nat) -> Seq<char> {
    let keys = seq!["url"@, "target"@];
    match string_value(line, keys) {
        Some((from, to)) => if contains(line.subrange(from, to), "${"@) {
            line
        } else {
            with_string_value(line, keys, url_with_port(line.subrange(from, to), port))
        },
        None => line,
    }
}

/// Sets the port of the URL in a line of a service section.
pub fn replace_lifecycle_url_line(line: &str, port: u16) -> (out: String)
    ensures
        out@ == url_line(line@, port as nat),
{
    let keys: Vec<String> = list_of_two("url", "target");
    match string_value_range(line, &keys) {
        Some((from, to)) => {
            let chars: Vec<char> = chars_of(line);
            let current: String = text_of_range(&chars, from, to);
            if text_has(current.as_str(), "${") {
                return owned(line);
            }
            let updated: String = replace_url_port(current.as_str(), port);
            replace_toml_string_line(line, &keys, updated.as_str())
        },
        None => owned(line),
    }
}

// ---------------------------------------------------------------------------------------------
// The project name
// ---------------------------------------------------------------------------------------------
/// A TOML string that denotes a text.
pub uninterp spec fn toml_string(value: Seq<char>) -> Seq<char>;

/// From `i` on, the same quote stands in a text as often as a counter of eight bits cannot count.
pub open spec fn quotes_from(s: Seq<char>, i: int) -> bool {
    &&& 0 <= i && i + 256 <= s.len()
    &&& s[i] == '\'' || s[i] == '"'
    &&& forall|k: int| i <= k < i + 256 ==> s[k] == s[i]
}

/// Somewhere in a text the same quote stands that often in a row.
pub open spec fn long_quote_run(s: Seq<char>) -> bool {
    exists|i: int| quotes_from(s, i)
}

/// Whether the same quote stands in a text more than 255 times in a row. No name of a project with
/// such a run can be written to a manifest.
pub fn has_long_quote_run(text: &str) -> (r: bool)
    ensures
        r == long_quote_run(text@),
{
    let s: Vec<char> = chars_of(text);
    let mut run: usize = 0;
    let mut i: usize = 0;
    while i < s.len()
        invariant
            i <= s@.len(),
            s@ == text@,
            run <= i,
            run < 256,
            forall|k: int| i - run <= k < i ==> #[trigger] s@[k] == s@[i - 1],
            run > 0 ==> s@[i - 1] == '\'' || s@[i - 1] == '"',
            run == 0 && i > 0 ==> s@[i - 1] != '\'' && s@[i - 1] != '"',
            0 < run < i ==> s@[i - run - 1] != s@[i - 1],
            forall|j: int| j + 256 <= i ==> !#[trigger] quotes_from(s@, j),
        decreases s@.len() - i,
    {
        let c: char = s[i];
        let ghost before = run as int;
        if c != '\'' && c != '"' {
            run = 0;
        } else if run > 0 && s[i - 1] == c {
            run += 1;
        } else {
            run = 1;
        }
        i += 1;
        if run == 256 {
            proof {
                assert(quotes_from(s@, i - 256));
            }
            return true;
        }
        proof {
            assert forall|j: int| j + 256 <= i implies !#[trigger] quotes_from(s@, j) by {
                if quotes_from(s@, j) && j + 256 == i {
                    assert(s@[i - 1] == s@[j]);
                    assert(run > 0);
                    assert(s@[i - run - 1] == s@[j]);
                }
            }
        }
    }
    false
}

/// `toml::Value::to_string` on a string value: the text as a TOML string. Which of the quotings of
/// TOML it takes is left to the crate; it depends on the text alone. The crate counts equal quotes
/// in a row in eight bits, so a text with a longer run is left out.
#[verifier::external_body]
pub(crate) fn toml_basic_string(value: &str) -> (out: String)
    requires
        !long_quote_run(value@),
    ensures
        out@ == toml_string(value@),
{
    toml::Value::String(value.to_string()).to_string()
}

/// Where the comment behind a TOML value starts: at the first `#` outside quotes. Inside double
/// quotes a backslash makes the next character an ordinary one.
pub open spec fn toml_comment(
    value: Seq<char>,
    i: int,
    quote: Option<char>,
    escaped: bool,
) -> int
    decreases value.len() - i,
{
    if i < 0 || i >= value.len() {
        value.len() as int
    } else {
        match quote {
            Some(active) => if active == '"' && escaped {
                toml_comment(value, i + 1, quote, false)
            } else if active == '"' && value[i] == '\\' {
                toml_comment(value, i + 1, quote, true)
            } else if value[i] == active {
                toml_comment(value, i + 1, None, escaped)
            } else {
                toml_comment(value, i + 1, quote, escaped)
            },
            None => if value[i] == '\'' || value[i] == '"' {
                toml_comment(value, i + 1, Some(value[i]), escaped)
            } else if value[i] == '#' {
                i
            } else {
                toml_comment(value, i + 1, quote, escaped)
            },
        }
    }
}

/// A line `name = ..` with another value: the white space round the value and the comment behind it
/// stay. A line with another key stays as it is.
pub open spec fn name_line(line: Seq<char>, quoted: Seq<char>) -> Seq<char> {
    let body = line_body(line);
    match find(body, "="@) {
        None => line,
        Some(equals) => if trim(body.take(equals)) != "name"@ {
            line
        } else {
            let value = body.skip(equals + 1);
            let end = toml_comment(value, 0, None, false);
            let old_value = value.take(end);
            body.take(equals + 1) + old_value.take(old_value.len() - trim_start(old_value).len())
                + quoted + old_value.skip(trim_end(old_value).len() as int) + value.skip(end)
                + line_ending(line)
        },
    }
}

fn toml_comment_start(value: &str) -> (r: usize)
    ensures
        r == toml_comment(value@, 0, None, false),
        r <= value@.len(),
{
    let s: Vec<char> = chars_of(value);
    let mut quote: Option<char> = None;
    let mut escaped: bool = false;
    let mut i: usize = 0;
    while i < s.len()
        invariant
            i <= s@.len(),
            s@ == value@,
            toml_comment(value@, 0, None, false) == toml_comment(
                value@,
                i as int,
                quote,
                escaped,
            ),
        decreases s@.len() - i,
    {
        let c: char = s[i];
        match quote {
            Some(active) => {
                if active == '"' && escaped {
                    escaped = false;
                } else if active == '"' && c == '\\' {
                    escaped = true;
                } else if c == active {
                    quote = None;
                }
            },
            None => {
                if c == '\'' || c == '"' {
                    quote = Some(c);
                } else if c == '#' {
                    return i;
                }
            },
        }
        i += 1;
    }
    i
}

/// Sets the value of a line `name = ..` to an already quoted string.
pub fn name_line_with(line: &str, quoted: &str) -> (out: String)
    ensures
        out@ == name_line(line@, quoted@),
{
    proof {
        reveal_strlit("=");
    }
    let (body, ending): (String, &'static str) = body_and_ending(line);
    let equals: usize = match position(body.as_str(), "=") {
        Some(k) => k,
        None => {
            return owned(line);
        },
    };
    let before: String = head(body.as_str(), equals);
    let key: String = trimmed(before.as_str());
    if !same(key.as_str(), "name") {
        return owned(line);
    }
    let value: String = tail(body.as_str(), equals + 1);
    let end: usize = toml_comment_start(value.as_str());
    let old_value: String = head(value.as_str(), end);
    let n: usize = chars_of(old_value.as_str()).len();
    let start_len: usize = chars_of(trimmed_start(old_value.as_str()).as_str()).len();
    let end_len: usize = chars_of(trimmed_end(old_value.as_str()).as_str()).len();
    proof {
        crate::search::lemma_trim_start_len(old_value@);
        crate::search::lemma_trim_end_len(old_value@);
    }
    let leading: String = head(old_value.as_str(), n - start_len);
    let trailing: String = tail(old_value.as_str(), end_len);
    let comment: String = tail(value.as_str(), end);
    let mut out: String = head(body.as_str(), equals + 1);
    out.append(leading.as_str());
    out.append(quoted);
    out.append(trailing.as_str());
    out.append(comment.as_str());
    out.append(ending);
    out
}

/// Sets the value of a line `name = ..` to the project name.
pub fn replace_lifecycle_name_line(line: &str, project_name: &str) -> (out: String)
    requires
        !long_quote_run(project_name@),
    ensures
        out@ == name_line(line@, toml_string(project_name@)),
{
    let quoted: String = toml_basic_string(project_name);
    name_line_with(line, quoted.as_str())
}

/// How far the lines of a manifest have been gone through.
#[verifier::ext_equal]
pub struct NameRun {
    pub in_root: bool,
    pub found: bool,
    pub output: Seq<char>,
}

/// The key of a line is `name`.
pub open spec fn names_project(line: Seq<char>) -> bool {
    match split_once(line, "="@) {
        Some((key, _)) => trim(key) == "name"@,
        None => false,
    }
}

/// Goes through the lines of a manifest from the first to the last. Only the first `name` before
/// the first section header is set.
pub open spec fn name_run(rows: Seq<Seq<char>>, quoted: Seq<char>) -> NameRun
    decreases rows.len(),
{
    if rows.len() == 0 {
        NameRun { in_root: true, found: false, output: seq![] }
    } else {
        let run = name_run(rows.drop_last(), quoted);
        let line = rows.last();
        let in_root = run.in_root && !starts_with(trim(line), "["@);
        if in_root && !run.found {
            let updated = name_line(line, quoted);
            NameRun {
                in_root,
                found: updated != line || names_project(line),
                output: run.output + updated,
            }
        } else {
            NameRun { in_root, found: run.found, output: run.output + line }
        }
    }
}

/// A manifest with the name of its project set to an already quoted string.
pub open spec fn manifest_with_name(content: Seq<char>, quoted: Seq<char>) -> Seq<char> {
    name_run(full_lines(content), quoted).output
}

/// Sets the name of the project in a manifest to an already quoted string.
pub fn manifest_with_quoted_name(content: &str, quoted: &str) -> (out: String)
    ensures
        out@ == manifest_with_name(content@, quoted@),
{
    let rows: Vec<String> = text_full_lines(content);
    let ghost all = texts(rows@);
    let mut in_root: bool = true;
    let mut found: bool = false;
    let mut output: String = String::new();
    let mut i: usize = 0;
    proof {
        assert(all.take(0) =~= Seq::<Seq<char>>::empty());
    }
    while i < rows.len()
        invariant
            i <= rows@.len(),
            all == texts(rows@),
            name_run(all.take(i as int), quoted@) == (NameRun { in_root, found, output: output@ }),
        decreases rows@.len() - i,
    {
        proof {
            assert(all.take(i + 1).drop_last() =~= all.take(i as int));
            assert(all.take(i + 1).last() == rows@[i as int]@);
        }
        let line: String = rows[i].clone();
        let t: String = trimmed(line.as_str());
        if in_root && has_prefix(t.as_str(), "[") {
            in_root = false;
        }
        if in_root && !found {
            let updated: String = name_line_with(line.as_str(), quoted);
            let named: bool = match split_text_once(line.as_str(), "=") {
                Some((key, _)) => {
                    let k: String = trimmed(key.as_str());
                    same(k.as_str(), "name")
                },
                None => false,
            };
            found = !same(updated.as_str(), line.as_str()) || named;
            output.append(updated.as_str());
        } else {
            output.append(line.as_str());
        }
        i += 1;
    }
    proof {
        assert(all.take(i as int) =~= all);
    }
    output
}

/// Sets the name of the project in a manifest. Names in sections stay.
pub fn synchronize_lifecycle_project_name_content(content: &str, project_name: &str) -> (out:
    String)
    requires
        !long_quote_run(project_name@),
    ensures
        out@ == manifest_with_name(content@, toml_string(project_name@)),
{
    let quoted: String = toml_basic_string(project_name);
    manifest_with_quoted_name(content, quoted.as_str())
}

// ---------------------------------------------------------------------------------------------
// Ports
// ---------------------------------------------------------------------------------------------
/// How far the lines of a manifest have been gone through.
#[verifier::ext_equal]
pub struct ManifestRun {
    pub service: Option<Seq<char>>,
    pub env_key: Option<Seq<char>>,
    pub output: Seq<char>,
}

/// A line of a manifest in step with an environment file: a URL of a service section takes the port
/// of the service, the default of a local port variable takes its value.
pub open spec fn manifest_line(
    line: Seq<char>,
    service: Option<Seq<char>>,
    env_key: Option<Seq<char>>,
    env: Seq<EnvVariableView>,
) -> Seq<char> {
    let port = match service {
        Some(name) => first_env_port(env, service_port_keys(name)),
        None => None,
    };
    match port {
        Some(p) => url_line(line, p),
        None => match env_key {
            Some(key) => match last_with_key(env, key) {
                Some(entry) => if local_port_key(key) {
                    with_string_value(line, seq!["default"@], entry.value)
                } else {
                    line
                },
                None => line,
            },
            None => line,
        },
    }
}

/// Goes through the lines of a manifest from the first to the last.
pub open spec fn manifest_run(rows: Seq<Seq<char>>, env: Seq<EnvVariableView>) -> ManifestRun
    decreases rows.len(),
{
    if rows.len() == 0 {
        ManifestRun { service: None, env_key: None, output: seq![] }
    } else {
        let run = manifest_run(rows.drop_last(), env);
        let line = rows.last();
        let header = starts_with(trim(line), "["@);
        let service = if header {
            section_service(trim(line))
        } else {
            run.service
        };
        let env_key = if header {
            section_env_key(trim(line))
        } else {
            run.env_key
        };
        ManifestRun {
            service,
            env_key,
            output: run.output + manifest_line(line, service, env_key, env),
        }
    }
}

/// A manifest in step with an environment file.
pub open spec fn manifest_in_step(content: Seq<char>, env: Seq<EnvVariableView>) -> Seq<char> {
    manifest_run(full_lines(content), env).output
}

fn synchronized_line(
    line: &str,
    service: &Option<String>,
    env_key: &Option<String>,
    env: &Vec<EnvVariable>,
) -> (out: String)
    ensures
        out@ == manifest_line(line@, opt_text(*service), opt_text(*env_key), env_views(env@)),
{
    match service {
        Some(name) => match service_env_port(name.as_str(), env) {
            Some(port) => {
                return replace_lifecycle_url_line(line, port);
            },
            None => {},
        },
        None => {},
    }
    match env_key {
        Some(key) => {
            if is_local_service_port_key(key.as_str()) {
                match last_position_of_key(env, key.as_str()) {
                    Some(k) => {
                        let keys: Vec<String> = list_of_one("default");
                        return replace_toml_string_line(line, &keys, env[k].value.as_str());
                    },
                    None => {},
                }
            }
        },
        None => {},
    }
    owned(line)
}

/// Brings a manifest in step with an environment file.
pub fn synchronize_lifecycle_content(content: &str, root: &Vec<EnvVariable>) -> (out: String)
    ensures
        out@ == manifest_in_step(content@, env_views(root@)),
{
    let rows: Vec<String> = text_full_lines(content);
    let ghost all = texts(rows@);
    let mut service: Option<String> = None;
    let mut env_key: Option<String> = None;
    let mut output: String = String::new();
    let mut i: usize = 0;
    proof {
        assert(all.take(0) =~= Seq::<Seq<char>>::empty());
    }
    while i < rows.len()
        invariant
            i <= rows@.len(),
            all == texts(rows@),
            manifest_run(all.take(i as int), env_views(root@)) == (ManifestRun {
                service: opt_text(service),
                env_key: opt_text(env_key),
                output: output@,
            }),
        decreases rows@.len() - i,
    {
        proof {
            assert(all.take(i + 1).drop_last() =~= all.take(i as int));
            assert(all.take(i + 1).last() == rows@[i as int]@);
        }
        let t: String = trimmed(rows[i].as_str());
        if has_prefix(t.as_str(), "[") {
            service = lifecycle_section_service(t.as_str());
            env_key = lifecycle_section_env_key(t.as_str());
        }
        let updated: String = synchronized_line(rows[i].as_str(), &service, &env_key, root);
        output.append(updated.as_str());
        i += 1;
    }
    proof {
        assert(all.take(i as int) =~= all);
    }
    output
}

// ---------------------------------------------------------------------------------------------
// Laws
// ---------------------------------------------------------------------------------------------
/// From the first section header of a manifest on, naming the project changes nothing: the names of
/// sections stay.
pub proof fn law_section_names_stay(root: Seq<Seq<char>>, sections: Seq<Seq<char>>, quoted: Seq<char>)
    requires
        sections.len() > 0 ==> starts_with(trim(sections[0]), "["@),
    ensures
        name_run(root + sections, quoted).output == name_run(root, quoted).output + concatenated(
            sections,
        ),
        sections.len() > 0 ==> !name_run(root + sections, quoted).in_root,
    decreases sections.len(),
{
    let all = root + sections;
    if sections.len() == 0 {
        assert(all =~= root);
        assert(name_run(root, quoted).output + concatenated(sections) =~= name_run(
            root,
            quoted,
        ).output);
    } else {
        let first = sections.drop_last();
        assert(all.drop_last() =~= root + first);
        assert(all.last() == sections.last());
        if first.len() == 0 {
            assert(root + first =~= root);
            assert(concatenated(first) =~= Seq::<char>::empty());
            assert(concatenated(sections) =~= sections.last());
        } else {
            assert(first[0] == sections[0]);
            law_section_names_stay(root, first, quoted);
            assert(name_run(root, quoted).output + (concatenated(first) + sections.last())
                =~= name_run(root, quoted).output + concatenated(first) + sections.last());
        }
    }
}

/// Naming the project changes at most one line of a manifest: where the lines before a place name
/// the project, those from there on stay.
pub proof fn law_project_is_named_once(before: Seq<Seq<char>>, behind: Seq<Seq<char>>, quoted: Seq<char>)
    requires
        name_run(before, quoted).found,
    ensures
        name_run(before + behind, quoted).output == name_run(before, quoted).output + concatenated(
            behind,
        ),
        name_run(before + behind, quoted).found,
    decreases behind.len(),
{
    let all = before + behind;
    if behind.len() == 0 {
        assert(all =~= before);
        assert(name_run(before, quoted).output + concatenated(behind) =~= name_run(
            before,
            quoted,
        ).output);
    } else {
        let first = behind.drop_last();
        assert(all.drop_last() =~= before + first);
        assert(all.last() == behind.last());
        law_project_is_named_once(before, first, quoted);
        assert(name_run(before, quoted).output + (concatenated(first) + behind.last())
            =~= name_run(before, quoted).output + concatenated(first) + behind.last());
    }
}

/// A manifest that does not name its project before its first section stays as it is.
pub proof fn law_unnamed_manifest_stays(content: Seq<char>, quoted: Seq<char>)
    requires
        full_lines(content).len() > 0 ==> starts_with(trim(full_lines(content)[0]), "["@),
    ensures
        manifest_with_name(content, quoted) == content,
{
    let rows = full_lines(content);
    let none = Seq::<Seq<char>>::empty();
    lemma_full_lines(content);
    law_section_names_stay(none, rows, quoted);
    assert(none + rows =~= rows);
    assert(name_run(none, quoted).output + concatenated(rows) =~= content);
}

} // verus!
