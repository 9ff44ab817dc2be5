//! The `--port` argument of the process commands in a lifecycle manifest.
use vstd::prelude::*;
use vstd::string::*;

use crate::env::{env_views, EnvVariable, EnvVariableView};
use crate::number::{
    decimal, decimal_text, digit_run, digit_run_len, lemma_decimal_value, parse_u16, parse_unsigned,
};
use crate::ports::{
    index_with_upper_key, port_of_value, port_value, port_views, position_of_upper_key,
};
use crate::rows::{
    are_rows, body_and_ending, concatenated, has_no_feed, is_row, lemma_body_and_ending,
    lemma_full_lines_are_rows, lemma_replacing_keeps_line, lemma_rows_are_full_lines, line_body,
    line_ending,
};
use crate::search::{
    contains, ends_with, find, has_prefix, head, last_position, lemma_find, lemma_find_from,
    lemma_find_skip, lemma_rfind_to, lemma_trim_end_len, lemma_trim_start_len, position,
    position_from, rfind, starts_with, tail, text_has, trim, trim_of, trim_start, trimmed,
    trimmed_of, trimmed_start, without_prefix, without_suffix,
};
use crate::split::{
    full_lines, lines, replace_all, replaced, split_once, split_text_once, text_full_lines,
    text_lines, text_words, words,
};
use crate::text::{
    ascii_lower, ascii_upper, chars_of, is_digit, is_space, opt_text, owned, same, text_of_range, texts,
    to_ascii_lower, to_ascii_upper,
};
use crate::urls::{extract_url_port, url_port};

verus! {

// ---------------------------------------------------------------------------------------------
// Tokens
// ---------------------------------------------------------------------------------------------
/// What stands between double quotes, from left to right.
pub open spec fn quoted_parts(s: Seq<char>) -> Seq<Seq<char>>
    decreases s.len(),
{
    match find(s, "\""@) {
        None => seq![],
        Some(open) => if open < 0 || open >= s.len() {
            seq![]
        } else {
            let rest = s.skip(open + 1);
            match find(rest, "\""@) {
                None => seq![],
                Some(close) => if close < 0 || close >= rest.len() {
                    seq![]
                } else {
                    seq![rest.take(close)] + quoted_parts(rest.skip(close + 1))
                },
            }
        },
    }
}

/// The tokens of a command line: the strings of an array, or the words of a single string.
pub open spec fn tokens_of(line: Seq<char>) -> Seq<Seq<char>> {
    let value = match split_once(line, "="@) {
        Some((_, rest)) => rest,
        None => line,
    };
    let quoted = quoted_parts(value);
    if quoted.len() == 1 {
        words(quoted[0])
    } else {
        quoted
    }
}

fn quoted_texts(text: &str) -> (out: Vec<String>)
    ensures
        texts(out@) == quoted_parts(text@),
{
    let s: Vec<char> = chars_of(text);
    let quote: Vec<char> = chars_of("\"");
    let mut out: Vec<String> = Vec::new();
    let mut pos: usize = 0;
    proof {
        reveal_strlit("\"");
        assert(s@.skip(0) =~= s@);
        assert(texts(out@) + quoted_parts(s@) =~= quoted_parts(s@));
    }
    loop
        invariant
            s@ == text@,
            quote@ == "\""@,
            quote@.len() == 1,
            pos <= s@.len(),
            quoted_parts(s@) == texts(out@) + quoted_parts(s@.skip(pos as int)),
        decreases s@.len() - pos,
    {
        let ghost done = texts(out@);
        let ghost rest = s@.skip(pos as int);
        proof {
            lemma_find_skip(s@, quote@, pos as int, pos as int);
            lemma_find_from(s@, quote@, pos as int);
        }
        match position_from(&s, &quote, pos) {
            None => {
                proof {
                    assert(texts(out@) + Seq::<Seq<char>>::empty() =~= texts(out@));
                }
                return out;
            },
            Some(open) => {
                let ghost inner = rest.skip(open - pos + 1);
                proof {
                    assert(inner =~= s@.skip(open + 1));
                    lemma_find_skip(s@, quote@, open + 1, open + 1);
                    lemma_find_from(s@, quote@, open + 1);
                }
                match position_from(&s, &quote, open + 1) {
                    None => {
                        proof {
                            assert(texts(out@) + Seq::<Seq<char>>::empty() =~= texts(out@));
                        }
                        return out;
                    },
                    Some(close) => {
                        let part: String = text_of_range(&s, open + 1, close);
                        proof {
                            assert(part@ =~= inner.take(close - open - 1));
                            assert(inner.skip(close - open) =~= s@.skip(close + 1));
                        }
                        out.push(part);
                        pos = close + 1;
                        proof {
                            assert(texts(out@) =~= done.push(part@));
                            assert(done.push(part@) + quoted_parts(s@.skip(pos as int)) =~= done + (
                            seq![part@] + quoted_parts(s@.skip(pos as int))));
                        }
                    },
                }
            },
        }
    }
}

/// The tokens of a line `command = ..`, in array form or in string form.
pub fn command_tokens(line: &str) -> (out: Vec<String>)
    ensures
        texts(out@) == tokens_of(line@),
{
    let value: String = match split_text_once(line, "=") {
        Some((_, rest)) => rest,
        None => owned(line),
    };
    let quoted: Vec<String> = quoted_texts(value.as_str());
    if quoted.len() == 1 {
        proof {
            assert(texts(quoted@)[0] == quoted@[0]@);
        }
        text_words(quoted[0].as_str())
    } else {
        quoted
    }
}

/// A program that takes `--port`.
pub open spec fn port_program(token: Seq<char>) -> bool {
    let t = ascii_lower(token);
    t == "langgraph"@ || t == "vite"@ || t == "uvicorn"@
}

/// A command takes `--port` when one of its tokens is such a program.
pub open spec fn takes_port(tokens: Seq<Seq<char>>) -> bool {
    exists|i: int| 0 <= i < tokens.len() && port_program(#[trigger] tokens[i])
}

/// Whether a command takes `--port`.
pub fn accepts_port_flag(tokens: &[String]) -> (r: bool)
    ensures
        r == takes_port(texts(tokens@)),
{
    let mut i: usize = 0;
    while i < tokens.len()
        invariant
            i <= tokens@.len(),
            forall|k: int| 0 <= k < i ==> !port_program(#[trigger] texts(tokens@)[k]),
        decreases tokens@.len() - i,
    {
        let lower: String = to_ascii_lower(tokens[i].as_str());
        proof {
            assert(texts(tokens@)[i as int] == tokens@[i as int]@);
        }
        if same(lower.as_str(), "langgraph") || same(lower.as_str(), "vite") || same(
            lower.as_str(),
            "uvicorn",
        ) {
            return true;
        }
        i += 1;
    }
    false
}

// ---------------------------------------------------------------------------------------------
// The value of `--port`
// ---------------------------------------------------------------------------------------------
/// The string that follows the flag in an array: what stands between the next quotes behind the
/// next comma.
pub open spec fn array_argument(flag: Seq<char>) -> Option<Seq<char>> {
    let rest = match find(flag, ","@) {
        Some(i) => flag.skip(i),
        None => flag.skip(flag.len() as int),
    };
    match find(rest, "\""@) {
        None => None,
        Some(open) => {
            let inner = rest.skip(open + 1);
            match find(inner, "\""@) {
                None => None,
                Some(close) => Some(inner.take(close)),
            }
        },
    }
}

/// The digits that follow the flag in a string.
pub open spec fn string_argument(flag: Seq<char>) -> Seq<char> {
    let rest = trim_start(flag.skip("--port"@.len() as int));
    rest.take(digit_run(rest) as int)
}

pub open spec fn port_number(s: Seq<char>) -> Option<nat> {
    parse_unsigned(s, 65535)
}

fn array_argument_text(flag: &str) -> (r: Option<String>)
    ensures
        opt_text(r) == array_argument(flag@),
{
    proof {
        reveal_strlit("\"");
    }
    let rest: String = match position(flag, ",") {
        Some(i) => tail(flag, i),
        None => {
            let n: usize = chars_of(flag).len();
            tail(flag, n)
        },
    };
    match position(rest.as_str(), "\"") {
        None => None,
        Some(open) => {
            let inner: String = tail(rest.as_str(), open + 1);
            match position(inner.as_str(), "\"") {
                None => None,
                Some(close) => Some(head(inner.as_str(), close)),
            }
        },
    }
}

fn string_argument_text(flag: &str) -> (out: String)
    requires
        flag@.len() >= "--port"@.len(),
    ensures
        out@ == string_argument(flag@),
{
    proof {
        reveal_strlit("--port");
    }
    let behind: String = tail(flag, 6);
    let rest: String = trimmed_start(behind.as_str());
    let n: usize = digit_run_len(rest.as_str());
    head(rest.as_str(), n)
}

// ---------------------------------------------------------------------------------------------
// Inserting, removing and replacing
// ---------------------------------------------------------------------------------------------
/// A command line with `--port` at its end: in an array before the last bracket, in a string before
/// the last quote.
pub open spec fn with_port_argument(line: Seq<char>, port: nat) -> Option<Seq<char>> {
    match rfind(line, "]"@) {
        Some(i) => Some(line.take(i) + ", \"--port\", \""@ + decimal(port) + "\""@ + "]"@),
        None => match rfind(line, "\""@) {
            Some(i) => Some(line.take(i) + " --port "@ + decimal(port) + line.skip(i)),
            None => None,
        },
    }
}

/// Adds `--port` to a command line.
pub fn insert_command_port(line: &str, port: u16) -> (r: Option<String>)
    ensures
        opt_text(r) == with_port_argument(line@, port as nat),
{
    let digits: String = decimal_text(port as u64);
    match last_position(line, "]") {
        Some(i) => {
            let mut out: String = head(line, i);
            out.append(", \"--port\", \"");
            out.append(digits.as_str());
            out.append("\"");
            out.append("]");
            return Some(out);
        },
        None => {},
    }
    match last_position(line, "\"") {
        Some(i) => {
            let mut out: String = head(line, i);
            let rest: String = tail(line, i);
            out.append(" --port ");
            out.append(digits.as_str());
            out.append(rest.as_str());
            Some(out)
        },
        None => None,
    }
}

/// A command line without a `--port` argument in array form.
pub open spec fn without_array_port(line: Seq<char>, flag: Seq<char>) -> Option<Seq<char>> {
    match array_argument(flag) {
        Some(port) => {
            let cleaned = replace_all(line, ", \"--port\", \""@ + port + "\""@, ""@);
            if port_number(port) is Some && cleaned != line {
                Some(cleaned)
            } else {
                None
            }
        },
        None => None,
    }
}

/// A command line without a `--port` argument in string form.
pub open spec fn without_string_port(line: Seq<char>, flag: Seq<char>) -> Option<Seq<char>> {
    let port = string_argument(flag);
    let cleaned = replace_all(line, " --port "@ + port, ""@);
    if port_number(port) is Some && cleaned != line {
        Some(cleaned)
    } else {
        None
    }
}

/// A command line without its `--port` argument, where it has one.
pub open spec fn without_port_argument(line: Seq<char>) -> Option<Seq<char>> {
    match find(line, "--port"@) {
        None => None,
        Some(i) => match without_array_port(line, line.skip(i)) {
            Some(cleaned) => Some(cleaned),
            None => without_string_port(line, line.skip(i)),
        },
    }
}

/// Removes `--port` and its value from a command line.
pub fn remove_command_port(line: &str) -> (r: Option<String>)
    ensures
        opt_text(r) == without_port_argument(line@),
{
    proof {
        reveal_strlit(", \"--port\", \"");
        reveal_strlit(" --port ");
        reveal_strlit("--port");
    }
    let at: usize = match position(line, "--port") {
        Some(i) => i,
        None => {
            return None;
        },
    };
    let flag: String = tail(line, at);
    match array_argument_text(flag.as_str()) {
        Some(port) => match parse_u16(port.as_str()) {
            Some(_) => {
                let target: String = owned(", \"--port\", \"").concat(port.as_str()).concat("\"");
                let cleaned: String = replaced(line, target.as_str(), "");
                if !same(cleaned.as_str(), line) {
                    return Some(cleaned);
                }
            },
            None => {},
        },
        None => {},
    }
    let port: String = string_argument_text(flag.as_str());
    match parse_u16(port.as_str()) {
        Some(_) => {
            let target: String = owned(" --port ").concat(port.as_str());
            let cleaned: String = replaced(line, target.as_str(), "");
            if !same(cleaned.as_str(), line) {
                return Some(cleaned);
            }
        },
        None => {},
    }
    None
}

/// A command line whose `--port` argument in array form has another value.
pub open spec fn with_array_port(line: Seq<char>, flag: Seq<char>, port: nat) -> Option<Seq<char>> {
    match array_argument(flag) {
        Some(argument) => match port_number(argument) {
            Some(current) => if current != port {
                Some(
                    replace_all(
                        line,
                        "--port\", \""@ + decimal(current) + "\""@,
                        "--port\", \""@ + decimal(port) + "\""@,
                    ),
                )
            } else {
                None
            },
            None => None,
        },
        None => None,
    }
}

/// A command line whose `--port` argument in string form has another value.
pub open spec fn with_string_port(
    line: Seq<char>,
    flag: Seq<char>,
    port: nat,
) -> Option<Seq<char>> {
    match port_number(string_argument(flag)) {
        Some(current) => if current != port {
            Some(replace_all(line, "--port "@ + decimal(current), "--port "@ + decimal(port)))
        } else {
            None
        },
        None => None,
    }
}

/// A command line whose `--port` argument has the value `port`, where that changes the line.
pub open spec fn with_command_port(line: Seq<char>, port: nat) -> Option<Seq<char>> {
    match find(line, "--port"@) {
        None => with_port_argument(line, port),
        Some(i) => match with_array_port(line, line.skip(i), port) {
            Some(updated) => Some(updated),
            None => with_string_port(line, line.skip(i), port),
        },
    }
}

/// Sets the `--port` argument of a command line.
pub fn set_command_port(line: &str, port: u16) -> (r: Option<String>)
    ensures
        opt_text(r) == with_command_port(line@, port as nat),
{
    proof {
        reveal_strlit("--port\", \"");
        reveal_strlit("--port ");
        reveal_strlit("--port");
    }
    let at: usize = match position(line, "--port") {
        Some(i) => i,
        None => {
            return insert_command_port(line, port);
        },
    };
    let flag: String = tail(line, at);
    let digits: String = decimal_text(port as u64);
    match array_argument_text(flag.as_str()) {
        Some(argument) => match parse_u16(argument.as_str()) {
            Some(current) => {
                if current != port {
                    let old_text: String = owned("--port\", \"").concat(
                        decimal_text(current as u64).as_str(),
                    ).concat("\"");
                    let new_text: String = owned("--port\", \"").concat(digits.as_str()).concat(
                        "\"",
                    );
                    return Some(replaced(line, old_text.as_str(), new_text.as_str()));
                }
            },
            None => {},
        },
        None => {},
    }
    let argument: String = string_argument_text(flag.as_str());
    match parse_u16(argument.as_str()) {
        Some(current) => {
            if current != port {
                let old_text: String = owned("--port ").concat(
                    decimal_text(current as u64).as_str(),
                );
                let new_text: String = owned("--port ").concat(digits.as_str());
                return Some(replaced(line, old_text.as_str(), new_text.as_str()));
            }
        },
        None => {},
    }
    None
}

// ---------------------------------------------------------------------------------------------
// Ports of the services in a manifest
// ---------------------------------------------------------------------------------------------
/// How far the lines of a manifest have been gone through.
#[verifier::ext_equal]
pub struct ServiceScan {
    pub service: Option<Seq<char>>,
    pub ports: Seq<(Seq<char>, u16)>,
}

/// The name in a header such as `[services.app]`, given what stands before the name.
pub open spec fn header_name(line: Seq<char>, opening: Seq<char>) -> Option<Seq<char>> {
    if starts_with(line, opening) && ends_with(line.skip(opening.len() as int), "]"@) {
        let rest = line.skip(opening.len() as int);
        Some(rest.take(rest.len() - "]"@.len()))
    } else {
        None
    }
}

fn name_in_header(line: &str, opening: &str) -> (r: Option<String>)
    ensures
        opt_text(r) == header_name(line@, opening@),
{
    match without_prefix(line, opening) {
        Some(rest) => without_suffix(rest.as_str(), "]"),
        None => None,
    }
}

/// The port in a line of a service section.
pub open spec fn line_port(t: Seq<char>) -> Option<nat> {
    match find(t, "="@) {
        Some(i) => url_port(trim_of(trim(t.skip(i + 1)), "\""@)),
        None => None,
    }
}

/// Goes through the lines of a manifest from the first to the last.
pub open spec fn service_scan(rows: Seq<Seq<char>>) -> ServiceScan
    decreases rows.len(),
{
    if rows.len() == 0 {
        ServiceScan { service: None, ports: seq![] }
    } else {
        let scan = service_scan(rows.drop_last());
        let t = trim(rows.last());
        match header_name(t, "[services."@) {
            Some(name) => ServiceScan { service: Some(name), ports: scan.ports },
            None => {
                let service = if starts_with(t, "["@) {
                    None
                } else {
                    scan.service
                };
                match (service, line_port(t)) {
                    (Some(name), Some(port)) => ServiceScan {
                        service,
                        ports: scan.ports.push((ascii_upper(name), port as u16)),
                    },
                    _ => ServiceScan { service, ports: scan.ports },
                }
            },
        }
    }
}

/// The ports in the service sections of a manifest, under the names of the services in upper case.
pub fn extract_lifecycle_service_ports(content: &str) -> (out: Vec<(String, u16)>)
    ensures
        port_views(out@) == service_scan(lines(content@)).ports,
{
    proof {
        reveal_strlit("=");
    }
    let rows: Vec<String> = text_lines(content);
    let ghost all = texts(rows@);
    let mut service: Option<String> = None;
    let mut out: Vec<(String, u16)> = Vec::new();
    let mut i: usize = 0;
    proof {
        assert(all.take(0) =~= Seq::<Seq<char>>::empty());
        assert(port_views(out@) =~= Seq::<(Seq<char>, u16)>::empty());
    }
    while i < rows.len()
        invariant
            i <= rows@.len(),
            all == texts(rows@),
            "="@.len() == 1,
            service_scan(all.take(i as int)) == (ServiceScan {
                service: opt_text(service),
                ports: port_views(out@),
            }),
        decreases rows@.len() - i,
    {
        let ghost before = port_views(out@);
        proof {
            assert(all.take(i + 1).drop_last() =~= all.take(i as int));
            assert(all.take(i + 1).last() == rows@[i as int]@);
        }
        let t: String = trimmed(rows[i].as_str());
        i += 1;
        if has_prefix(t.as_str(), "[") {
            service = None;
        }
        match name_in_header(t.as_str(), "[services.") {
            Some(name) => {
                service = Some(name);
                continue;
            },
            None => {},
        }
        match &service {
            Some(name) => match position(t.as_str(), "=") {
                Some(k) => {
                    let behind: String = tail(t.as_str(), k + 1);
                    let value: String = trimmed(behind.as_str());
                    let url: String = trimmed_of(value.as_str(), "\"");
                    match extract_url_port(url.as_str()) {
                        Some(port) => {
                            let upper: String = to_ascii_upper(name.as_str());
                            out.push((upper, port));
                            proof {
                                assert(port_views(out@) =~= before.push((upper@, port)));
                            }
                        },
                        None => {},
                    }
                },
                None => {},
            },
            None => {},
        }
    }
    proof {
        assert(all.take(i as int) =~= all);
    }
    out
}

// ---------------------------------------------------------------------------------------------
// Commands in step with an environment file
// ---------------------------------------------------------------------------------------------
/// The first port under a name.
pub open spec fn first_port(ports: Seq<(Seq<char>, u16)>, name: Seq<char>, i: int) -> Option<u16>
    decreases ports.len() - i,
{
    if i < 0 || i >= ports.len() {
        None
    } else if ports[i].0 == name {
        Some(ports[i].1)
    } else {
        first_port(ports, name, i + 1)
    }
}

pub fn first_port_named(ports: &Vec<(String, u16)>, name: &str) -> (r: Option<u16>)
    ensures
        r == first_port(port_views(ports@), name@, 0),
{
    let mut i: usize = 0;
    while i < ports.len()
        invariant
            i <= ports@.len(),
            first_port(port_views(ports@), name@, 0) == first_port(
                port_views(ports@),
                name@,
                i as int,
            ),
        decreases ports@.len() - i,
    {
        if same(ports[i].0.as_str(), name) {
            return Some(ports[i].1);
        }
        i += 1;
    }
    None
}

/// The port of a process: what the environment file holds for it, or else what the URL of the
/// service of the same name holds.
pub open spec fn process_port(
    process: Seq<char>,
    env: Seq<EnvVariableView>,
    services: Seq<(Seq<char>, u16)>,
) -> Option<nat> {
    let name = ascii_upper(process);
    let from_env = match index_with_upper_key(env, name + "_PORT"@, 0) {
        Some(i) => port_value(env[i].value),
        None => None,
    };
    match from_env {
        Some(port) => Some(port),
        None => match first_port(services, name, 0) {
            Some(port) => Some(port as nat),
            None => None,
        },
    }
}

/// What takes the place of a command line: a command that takes `--port` gets the port of its
/// process; any other loses a `--port` argument that it has.
pub open spec fn command_line(line: Seq<char>, port: Option<nat>) -> Option<Seq<char>> {
    if !takes_port(tokens_of(line)) {
        if contains(line, "--port"@) {
            without_port_argument(line)
        } else {
            None
        }
    } else {
        match port {
            Some(p) => with_command_port(line, p),
            None => None,
        }
    }
}

/// The process whose section a line belongs to, given that of the line before it.
pub open spec fn process_at(process: Option<Seq<char>>, line: Seq<char>) -> Option<Seq<char>> {
    let t = trim(line);
    if starts_with(t, "[processes."@) {
        header_name(t, "[processes."@)
    } else if starts_with(t, "["@) {
        None
    } else {
        process
    }
}

/// The process whose section the last of the first `n` lines belongs to.
pub open spec fn process_of(rows: Seq<Seq<char>>, n: int) -> Option<Seq<char>>
    decreases n,
{
    if n <= 0 {
        None
    } else {
        process_at(process_of(rows, n - 1), rows[n - 1])
    }
}

/// What a line of the section of a process becomes: its command gets the port of the process.
pub open spec fn process_line(
    line: Seq<char>,
    process: Option<Seq<char>>,
    env: Seq<EnvVariableView>,
    services: Seq<(Seq<char>, u16)>,
) -> Seq<char> {
    match process {
        Some(name) => if starts_with(trim(line), "command"@) {
            match command_line(line_body(line), process_port(name, env, services)) {
                Some(updated) => updated + line_ending(line),
                None => line,
            }
        } else {
            line
        },
        None => line,
    }
}

/// The lines of a manifest with the process commands in step with an environment file.
pub open spec fn command_rows(
    rows: Seq<Seq<char>>,
    env: Seq<EnvVariableView>,
    services: Seq<(Seq<char>, u16)>,
) -> Seq<Seq<char>> {
    Seq::new(rows.len(), |i: int| process_line(rows[i], process_of(rows, i + 1), env, services))
}

/// A manifest whose process commands are in step with an environment file.
pub open spec fn commands_in_step(content: Seq<char>, env: Seq<EnvVariableView>) -> Seq<char> {
    concatenated(command_rows(full_lines(content), env, service_scan(lines(content)).ports))
}

fn port_of_process(
    process: &str,
    entries: &Vec<EnvVariable>,
    services: &Vec<(String, u16)>,
) -> (r: Option<u16>)
    ensures
        match r {
            Some(port) => process_port(process@, env_views(entries@), port_views(services@))
                == Some(port as nat),
            None => process_port(process@, env_views(entries@), port_views(services@)) is None,
        },
{
    let name: String = to_ascii_upper(process);
    let key: String = to_ascii_upper(process).concat("_PORT");
    match position_of_upper_key(entries, key.as_str()) {
        Some(i) => match port_of_value(entries[i].value.as_str()) {
            Some(port) => {
                return Some(port);
            },
            None => {},
        },
        None => {},
    }
    first_port_named(services, name.as_str())
}

fn updated_command(line: &str, port: Option<u16>) -> (r: Option<String>)
    ensures
        opt_text(r) == command_line(
            line@,
            match port {
                Some(p) => Some(p as nat),
                None => None,
            },
        ),
{
    let tokens: Vec<String> = command_tokens(line);
    if !accepts_port_flag(tokens.as_slice()) {
        if text_has(line, "--port") {
            return remove_command_port(line);
        }
        return None;
    }
    match port {
        Some(p) => set_command_port(line, p),
        None => None,
    }
}

fn synchronized_command(
    line: &str,
    process: &Option<String>,
    entries: &Vec<EnvVariable>,
    services: &Vec<(String, u16)>,
) -> (out: String)
    ensures
        out@ == process_line(
            line@,
            opt_text(*process),
            env_views(entries@),
            port_views(services@),
        ),
{
    let t: String = trimmed(line);
    match process {
        Some(name) => {
            if !has_prefix(t.as_str(), "command") {
                return owned(line);
            }
            let (body, ending): (String, &'static str) = body_and_ending(line);
            let port: Option<u16> = port_of_process(name.as_str(), entries, services);
            match updated_command(body.as_str(), port) {
                Some(updated) => updated.concat(ending),
                None => owned(line),
            }
        },
        None => owned(line),
    }
}

/// Brings the `--port` arguments of the process commands of a manifest in step with an environment
/// file. Where the file has no port for a process, the URL of its service gives the port.
pub fn sync_process_command_ports(content: &str, entries: &Vec<EnvVariable>) -> (out: String)
    ensures
        out@ == commands_in_step(content@, env_views(entries@)),
{
    let services: Vec<(String, u16)> = extract_lifecycle_service_ports(content);
    let rows: Vec<String> = text_full_lines(content);
    let ghost all = texts(rows@);
    let ghost env = env_views(entries@);
    let ghost ports = port_views(services@);
    let ghost done = command_rows(all, env, ports);
    let mut process: Option<String> = None;
    let mut updated: String = String::new();
    let mut i: usize = 0;
    proof {
        assert(done.take(0) =~= Seq::<Seq<char>>::empty());
    }
    while i < rows.len()
        invariant
            i <= rows@.len(),
            all == texts(rows@),
            env == env_views(entries@),
            ports == port_views(services@),
            done == command_rows(all, env, ports),
            opt_text(process) == process_of(all, i as int),
            updated@ == concatenated(done.take(i as int)),
        decreases rows@.len() - i,
    {
        proof {
            assert(done.take(i + 1).drop_last() =~= done.take(i as int));
            assert(all[i as int] == rows@[i as int]@);
        }
        let line: &str = rows[i].as_str();
        let t: String = trimmed(line);
        if has_prefix(t.as_str(), "[processes.") {
            process = name_in_header(t.as_str(), "[processes.");
        } else if has_prefix(t.as_str(), "[") {
            process = None;
        }
        let new_line: String = synchronized_command(line, &process, entries, &services);
        updated.append(new_line.as_str());
        i += 1;
    }
    proof {
        assert(done.take(i as int) =~= done);
    }
    updated
}

// ---------------------------------------------------------------------------------------------
// Laws
// ---------------------------------------------------------------------------------------------
proof fn lemma_removal_shortens(s: Seq<char>, from: Seq<char>)
    requires
        from.len() > 0,
    ensures
        replace_all(s, from, ""@).len() <= s.len(),
        replace_all(s, from, ""@) != s ==> replace_all(s, from, ""@).len() < s.len(),
    decreases s.len(),
{
    reveal_strlit("");
    crate::search::lemma_find(s, from);
    match find(s, from) {
        Some(i) => {
            lemma_removal_shortens(s.skip(i + from.len()), from);
        },
        None => {},
    }
}

/// A command that does not take `--port` never gets one: its line changes only where it holds a
/// `--port`, and then it only loses text.
pub proof fn law_other_commands_get_no_port(line: Seq<char>, port: Option<nat>)
    requires
        !takes_port(tokens_of(line)),
    ensures
        command_line(line, port) matches Some(updated) ==> contains(line, "--port"@)
            && updated.len() < line.len(),
{
    reveal_strlit(", \"--port\", \"");
    reveal_strlit(" --port ");
    if command_line(line, port) is Some {
        let flag = line.skip(find(line, "--port"@)->0);
        match array_argument(flag) {
            Some(value) => {
                lemma_removal_shortens(line, ", \"--port\", \""@ + value + "\""@);
            },
            None => {},
        }
        lemma_removal_shortens(line, " --port "@ + string_argument(flag));
    }
}

/// Digits are no line feeds.
proof fn lemma_decimal_is_on_a_line(n: nat)
    ensures
        has_no_feed(decimal(n)),
{
    lemma_decimal_value(n);
    let d = decimal(n);
    assert forall|k: int| 0 <= k < d.len() implies d[k] != '\n' by {
        assert(is_digit(d[k]));
    }
}

/// What is made of a command stays on its line, and there is something of it.
proof fn lemma_command_is_on_a_line(line: Seq<char>, port: Option<nat>)
    requires
        has_no_feed(line),
        starts_with(trim(line), "command"@),
    ensures
        command_line(line, port) matches Some(updated) ==> has_no_feed(updated) && updated.len()
            > 0,
{
    if command_line(line, port) is Some {
        reveal_strlit(", \"--port\", \"");
        reveal_strlit("--port\", \"");
        reveal_strlit(" --port ");
        reveal_strlit("--port ");
        reveal_strlit("--port");
        reveal_strlit("\"");
        reveal_strlit("]");
        reveal_strlit("");
        let flag = line.skip(find(line, "--port"@)->0);
        if !takes_port(tokens_of(line)) {
            match array_argument(flag) {
                Some(value) => {
                    let from = ", \"--port\", \""@ + value + "\""@;
                    lemma_replacing_keeps_line(line, from, ""@);
                    lemma_command_start_stays(line, from, ""@);
                },
                None => {},
            }
            let from = " --port "@ + string_argument(flag);
            lemma_replacing_keeps_line(line, from, ""@);
            lemma_command_start_stays(line, from, ""@);
        } else {
            let p = port->0;
            lemma_decimal_is_on_a_line(p);
            match find(line, "--port"@) {
                None => {
                    lemma_rfind_to(line, "]"@, line.len() - 1);
                    lemma_rfind_to(line, "\""@, line.len() - 1);
                },
                Some(_) => {
                    match array_argument(flag) {
                        Some(argument) => match port_number(argument) {
                            Some(current) => {
                                let from = "--port\", \""@ + decimal(current) + "\""@;
                                let to = "--port\", \""@ + decimal(p) + "\""@;
                                lemma_replacing_keeps_line(line, from, to);
                                lemma_command_start_stays(line, from, to);
                            },
                            None => {},
                        },
                        None => {},
                    }
                    match port_number(string_argument(flag)) {
                        Some(current) => {
                            let from = "--port "@ + decimal(current);
                            let to = "--port "@ + decimal(p);
                            lemma_replacing_keeps_line(line, from, to);
                            lemma_command_start_stays(line, from, to);
                        },
                        None => {},
                    }
                },
            }
        }
    }
}

/// A replacement that starts with a comma, a dash or a blank before a dash leaves the start of a
/// command.
proof fn lemma_command_start_stays(line: Seq<char>, from: Seq<char>, to: Seq<char>)
    requires
        starts_with(trim(line), "command"@),
        from.len() > 1,
        from[0] == ',' || from[0] == '-' || (from[0] == ' ' && from[1] == '-'),
    ensures
        replace_all(line, from, to).len() > 0,
{
    reveal_strlit("command");
    lemma_trim_start_len(line);
    let a = trim_start(line);
    lemma_trim_end_len(a);
    let t = trim(line);
    assert(t.subrange(0, 7)[0] == t[0]);
    assert(a[0] == 'c');
    let n = line.len() - a.len();
    assert(line[n] == 'c');
    lemma_find(line, from);
    match find(line, from) {
        Some(i) => {
            if i == 0 {
                assert(line.subrange(0, from.len() as int)[0] == line[0]);
                assert(line.subrange(0, from.len() as int)[1] == line[1]);
                lemma_first_word(line);
            }
            assert(line.take(i).len() > 0);
        },
        None => {},
    }
}

/// A line whose first character is no white space starts with its first word; one that starts with
/// a single blank has it behind that.
proof fn lemma_first_word(line: Seq<char>)
    requires
        line.len() > 1,
    ensures
        !is_space(line[0]) ==> trim_start(line) == line,
        is_space(line[0]) && !is_space(line[1]) ==> trim_start(line) == line.skip(1),
{
    reveal_with_fuel(trim_start, 3);
}

/// The lines of a manifest with its commands in step are lines.
proof fn lemma_command_rows_are_rows(
    rows: Seq<Seq<char>>,
    env: Seq<EnvVariableView>,
    services: Seq<(Seq<char>, u16)>,
)
    requires
        are_rows(rows),
    ensures
        are_rows(command_rows(rows, env, services)),
{
    let done = command_rows(rows, env, services);
    assert forall|i: int| 0 <= i < rows.len() implies is_row(#[trigger] done[i]) && (rows[i].last()
        == '\n' ==> done[i].last() == '\n') by {
        let row = rows[i];
        assert(is_row(row));
        lemma_body_and_ending(row);
        match process_of(rows, i + 1) {
            Some(name) => {
                if starts_with(trim(row), "command"@) {
                    let body = line_body(row);
                    let ending = line_ending(row);
                    let port = process_port(name, env, services);
                    lemma_trim_of_body(row);
                    lemma_command_is_on_a_line(body, port);
                    if command_line(body, port) is Some {
                        let updated = command_line(body, port)->0;
                        assert(done[i] == updated + ending);
                        assert forall|k: int| 0 <= k < done[i].len() - 1 implies done[i][k]
                            != '\n' by {
                            if k < updated.len() {
                                assert(done[i][k] == updated[k]);
                            } else {
                                assert(done[i][k] == ending[k - updated.len()]);
                            }
                        }
                        if row.last() == '\n' {
                            assert(ending.len() > 0);
                            assert(done[i].last() == ending.last());
                        }
                    }
                }
            },
            None => {},
        }
    }
    assert forall|i: int| 0 <= i < done.len() - 1 implies (#[trigger] done[i]).last() == '\n' by {
        assert(rows[i].last() == '\n');
    }
}

/// The ending of a line is white space: a line without it is trimmed to the same text.
proof fn lemma_trim_of_body(row: Seq<char>)
    ensures
        trim(line_body(row)) == trim(row),
{
    reveal_strlit("\r\n");
    reveal_strlit("\n");
    reveal_strlit("");
    lemma_body_and_ending(row);
    let body = line_body(row);
    let ending = line_ending(row);
    lemma_trim_with_spaces(body, ending);
}

/// White space behind a text does not change what it is trimmed to.
proof fn lemma_trim_with_spaces(body: Seq<char>, spaces: Seq<char>)
    requires
        forall|k: int| 0 <= k < spaces.len() ==> is_space(#[trigger] spaces[k]),
    ensures
        trim(body + spaces) == trim(body),
    decreases spaces.len(),
{
    if spaces.len() == 0 {
        assert(body + spaces =~= body);
    } else {
        let less = spaces.drop_last();
        let whole = body + spaces;
        assert(whole.drop_last() =~= body + less);
        lemma_trim_with_spaces(body, less);
        lemma_trim_one_space(whole);
    }
}

/// A space at the end of a text does not change what it is trimmed to.
proof fn lemma_trim_one_space(s: Seq<char>)
    requires
        s.len() > 0,
        is_space(s.last()),
    ensures
        trim(s) == trim(s.drop_last()),
    decreases s.len(),
{
    let less = s.drop_last();
    if is_space(s[0]) {
        if s.len() == 1 {
            assert(less =~= Seq::<char>::empty());
            assert(s.skip(1) =~= Seq::<char>::empty());
            reveal_with_fuel(trim_start, 2);
        } else {
            assert(s.skip(1).drop_last() =~= less.skip(1));
            lemma_trim_one_space(s.skip(1));
            assert(less[0] == s[0]);
        }
    } else {
        assert(less.len() > 0);
        assert(less[0] == s[0]);
        assert(trim_start(s) == s);
        assert(trim_start(less) == less);
    }
}

/// A manifest keeps its lines, and every line outside the sections of processes stays as it is: the
/// command of a task never gets the port of a process.
pub proof fn law_only_processes_change(content: Seq<char>, env: Seq<EnvVariableView>)
    ensures
        full_lines(commands_in_step(content, env)).len() == full_lines(content).len(),
        forall|i: int|
            0 <= i < full_lines(content).len() && process_of(full_lines(content), i + 1) is None
                ==> #[trigger] full_lines(commands_in_step(content, env))[i] == full_lines(
                content,
            )[i],
        forall|i: int|
            0 <= i < full_lines(content).len() && !starts_with(
                trim(full_lines(content)[i]),
                "command"@,
            ) ==> #[trigger] full_lines(commands_in_step(content, env))[i] == full_lines(
                content,
            )[i],
{
    let rows = full_lines(content);
    let services = service_scan(lines(content)).ports;
    lemma_full_lines_are_rows(content);
    lemma_command_rows_are_rows(rows, env, services);
    lemma_rows_are_full_lines(command_rows(rows, env, services));
}

/// A section that declares no process ends the process before it, up to the next header.
pub proof fn law_other_sections_end_processes(rows: Seq<Seq<char>>, header: int, n: int)
    requires
        0 <= header < n <= rows.len(),
        starts_with(trim(rows[header]), "["@),
        !starts_with(trim(rows[header]), "[processes."@),
        forall|k: int| header < k < n ==> !starts_with(trim(#[trigger] rows[k]), "["@),
    ensures
        process_of(rows, n) is None,
    decreases n,
{
    if header < n - 1 {
        law_other_sections_end_processes(rows, header, n - 1);
        let t = trim(rows[n - 1]);
        if starts_with(t, "[processes."@) {
            reveal_strlit("[");
            reveal_strlit("[processes.");
            assert(t.subrange(0, 11)[0] == "[processes."@[0]);
            assert(t.subrange(0, 1) =~= "["@);
        }
    }
}

} // verus!
