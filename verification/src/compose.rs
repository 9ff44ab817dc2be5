//! Port mappings in a compose file.
use vstd::prelude::*;
use vstd::string::*;

use crate::env::{env_views, EnvVariable, EnvVariableView};
use crate::number::all_digits;
use crate::ports::{index_with_upper_key, position_of_upper_key};
use crate::rows::{
    are_rows, concatenated, has_no_feed, is_row, lemma_full_lines, lemma_full_lines_are_rows,
    lemma_rows_are_full_lines,
};
use crate::search::{
    at, contains, ends_with, find, has_prefix, has_suffix, head, last_position, lemma_find,
    lemma_find_from_is, lemma_rfind_to, lemma_trim_end_of_set, lemma_trim_end_spaces,
    lemma_trim_end_stops, lemma_trim_start_of_set, lemma_trim_start_spaces, lemma_trim_start_stops,
    rfind, starts_with, tail, text_has, trim,
    trim_end_of, trim_of, trim_start, trim_start_all, trim_start_of, trimmed,
    trimmed_end_of, trimmed_of, trimmed_start, trimmed_start_all,
};
use crate::split::{full_lines, replace_all, replaced, text_full_lines};
use crate::text::{
    ascii_upper, byte_len, chars_of, is_digit, is_space, opt_text, owned, same, texts,
    to_ascii_upper, upper_char, utf8_length,
};

verus! {

/// A line of a compose file that starts the definition of a service: a name and a colon, indented
/// by two.
pub open spec fn service_header(line: Seq<char>) -> bool {
    let t = trim(line);
    byte_len(line) == byte_len(trim_start(line)) + 2 && ends_with(t, ":"@) && !starts_with(t, "-"@)
}

/// The service that a line belongs to, given the service of the line before it.
pub open spec fn service_at(service: Option<Seq<char>>, line: Seq<char>) -> Option<Seq<char>> {
    if service_header(line) {
        let name = trim_end_of(trim(line), ":"@);
        if name == "services"@ {
            None
        } else {
            Some(name)
        }
    } else {
        service
    }
}

/// The entry of a list line, without its quotes.
pub open spec fn list_entry(line: Seq<char>) -> Seq<char> {
    trim_of(trim(trim_start_all(trim(line), "- "@)), "\""@)
}

/// What takes the place of a mapping of ports, for a variable that holds the port of the host: the
/// port of the host becomes a reference to the variable, with the port as its default. A mapping
/// that refers to a variable stays, and so does an entry that maps no ports.
pub open spec fn mapping_with_variable(mapping: Seq<char>, key: Seq<char>) -> Option<Seq<char>> {
    if contains(mapping, "${"@) {
        None
    } else {
        match rfind(mapping, ":"@) {
            None => None,
            Some(colon) => {
                let container = mapping.skip(colon + 1);
                let host = mapping.take(colon);
                if !all_digits(container) {
                    None
                } else {
                    match rfind(host, ":"@) {
                        Some(k) => if all_digits(host.skip(k + 1)) {
                            Some(
                                host.take(k) + ":${"@ + key + ":-"@ + host.skip(k + 1) + "}:"@
                                    + container,
                            )
                        } else {
                            None
                        },
                        None => if all_digits(host) {
                            Some("${"@ + key + ":-"@ + host + "}:"@ + container)
                        } else {
                            None
                        },
                    }
                }
            },
        }
    }
}

/// The mapping on a line and what takes its place, where the environment file has a port for the
/// service of the line.
pub open spec fn line_replacement(
    line: Seq<char>,
    service: Option<Seq<char>>,
    env: Seq<EnvVariableView>,
) -> Option<(Seq<char>, Seq<char>)> {
    let t = trim(line);
    match service {
        Some(name) => if starts_with(t, "- "@) && contains(t, ":"@) && index_with_upper_key(
            env,
            ascii_upper(name) + "_PORT"@,
            0,
        ) is Some {
            match mapping_with_variable(list_entry(line), ascii_upper(name) + "_PORT"@) {
                Some(new_mapping) => Some((list_entry(line), new_mapping)),
                None => None,
            }
        } else {
            None
        },
        None => None,
    }
}

/// A line whose mapping refers to the port variable of its service.
pub open spec fn line_in_step(
    line: Seq<char>,
    service: Option<Seq<char>>,
    env: Seq<EnvVariableView>,
) -> Seq<char> {
    match line_replacement(line, service, env) {
        Some((old_mapping, new_mapping)) => replace_all(line, old_mapping, new_mapping),
        None => line,
    }
}

/// The service that the last of the first `n` lines belongs to.
pub open spec fn service_of(rows: Seq<Seq<char>>, n: int) -> Option<Seq<char>>
    decreases n,
{
    if n <= 0 {
        None
    } else {
        service_at(service_of(rows, n - 1), rows[n - 1])
    }
}

/// The lines of a compose file, each in step with an environment file.
pub open spec fn rows_in_step(rows: Seq<Seq<char>>, env: Seq<EnvVariableView>) -> Seq<Seq<char>> {
    Seq::new(rows.len(), |i: int| line_in_step(rows[i], service_of(rows, i + 1), env))
}

/// A compose file whose mappings refer to the port variables of an environment file.
pub open spec fn compose_in_step(content: Seq<char>, env: Seq<EnvVariableView>) -> Seq<char> {
    concatenated(rows_in_step(full_lines(content), env))
}

fn only_digits(text: &str) -> (r: bool)
    ensures
        r == all_digits(text@),
{
    let s: Vec<char> = chars_of(text);
    let mut i: usize = 0;
    while i < s.len()
        invariant
            i <= s@.len(),
            s@ == text@,
            forall|k: int| 0 <= k < i ==> is_digit(#[trigger] s@[k]),
        decreases s@.len() - i,
    {
        if !('0' <= s[i] && s[i] <= '9') {
            return false;
        }
        i += 1;
    }
    true
}

fn mapping_for(mapping: &str, key: &str) -> (r: Option<String>)
    ensures
        opt_text(r) == mapping_with_variable(mapping@, key@),
{
    proof {
        reveal_strlit(":");
    }
    if text_has(mapping, "${") {
        return None;
    }
    match last_position(mapping, ":") {
        None => None,
        Some(colon) => {
            let container: String = tail(mapping, colon + 1);
            let host: String = head(mapping, colon);
            if !only_digits(container.as_str()) {
                return None;
            }
            match last_position(host.as_str(), ":") {
                Some(k) => {
                    let port: String = tail(host.as_str(), k + 1);
                    if !only_digits(port.as_str()) {
                        return None;
                    }
                    let mut out: String = head(host.as_str(), k);
                    out.append(":${");
                    out.append(key);
                    out.append(":-");
                    out.append(port.as_str());
                    out.append("}:");
                    out.append(container.as_str());
                    Some(out)
                },
                None => {
                    if !only_digits(host.as_str()) {
                        return None;
                    }
                    let mut out: String = owned("${");
                    out.append(key);
                    out.append(":-");
                    out.append(host.as_str());
                    out.append("}:");
                    out.append(container.as_str());
                    Some(out)
                },
            }
        },
    }
}

/// Lets the mapping on a line refer to the port variable of its service.
fn synchronized_line(line: &str, service: &Option<String>, entries: &Vec<EnvVariable>) -> (out:
    String)
    ensures
        out@ == line_in_step(line@, opt_text(*service), env_views(entries@)),
{
    let t: String = trimmed(line);
    if !has_prefix(t.as_str(), "- ") || !text_has(t.as_str(), ":") {
        return owned(line);
    }
    match service {
        Some(name) => {
            let key: String = to_ascii_upper(name.as_str()).concat("_PORT");
            match position_of_upper_key(entries, key.as_str()) {
                Some(_) => {
                    let body: String = trimmed_start_all(t.as_str(), "- ");
                    let inner: String = trimmed(body.as_str());
                    let mapping: String = trimmed_of(inner.as_str(), "\"");
                    match mapping_for(mapping.as_str(), key.as_str()) {
                        Some(new_mapping) => {
                            proof {
                                reveal_strlit(":");
                            }
                            replaced(line, mapping.as_str(), new_mapping.as_str())
                        },
                        None => owned(line),
                    }
                },
                None => owned(line),
            }
        },
        None => owned(line),
    }
}

/// Lets the port mappings of a compose file refer to the port variables of an environment file, so
/// that a port that changes there needs no change here. The port that stood in the mapping stays
/// as the default.
pub fn sync_docker_compose_port_mappings(content: &str, entries: &Vec<EnvVariable>) -> (out: String)
    ensures
        out@ == compose_in_step(content@, env_views(entries@)),
{
    let rows: Vec<String> = text_full_lines(content);
    let ghost all = texts(rows@);
    let ghost env = env_views(entries@);
    let ghost done = rows_in_step(all, env);
    let mut service: Option<String> = None;
    let mut updated: String = String::new();
    let mut i: usize = 0;
    proof {
        assert(done.take(0) =~= Seq::<Seq<char>>::empty());
    }
    while i < rows.len()
        invariant
            i <= rows@.len(),
            all == texts(rows@),
            env == env_views(entries@),
            done == rows_in_step(all, env),
            opt_text(service) == service_of(all, i as int),
            updated@ == concatenated(done.take(i as int)),
        decreases rows@.len() - i,
    {
        proof {
            assert(done.take(i + 1).drop_last() =~= done.take(i as int));
            assert(all[i as int] == rows@[i as int]@);
        }
        let line: &str = rows[i].as_str();
        let t: String = trimmed(line);
        let start: String = trimmed_start(line);
        let line_len: u128 = utf8_length(line);
        let start_len: u128 = utf8_length(start.as_str());
        if line_len >= 2 && line_len - 2 == start_len && has_suffix(t.as_str(), ":") && !has_prefix(
            t.as_str(),
            "-",
        ) {
            let name: String = trimmed_end_of(t.as_str(), ":");
            if same(name.as_str(), "services") {
                service = None;
            } else {
                service = Some(name);
            }
        }
        let new_line: String = synchronized_line(line, &service, entries);
        updated.append(new_line.as_str());
        i += 1;
    }
    proof {
        assert(done.take(i as int) =~= done);
    }
    updated
}

// ---------------------------------------------------------------------------------------------
// Where the entry of a list line stands
// ---------------------------------------------------------------------------------------------
/// What stands round the entry of a list line: white space, dashes and quotes.
pub open spec fn is_outer(c: char) -> bool {
    is_space(c) || c == '-' || c == '"'
}

/// The entry of a line stands between `p` and `q`, and only outer characters stand round it.
pub open spec fn entry_between(line: Seq<char>, p: int, q: int) -> bool {
    &&& 0 <= p <= q <= line.len()
    &&& list_entry(line) == line.subrange(p, q)
    &&& forall|k: int| 0 <= k < p ==> is_outer(#[trigger] line[k])
    &&& forall|k: int| q <= k < line.len() ==> is_outer(#[trigger] line[k])
}

/// A line of a list: white space, then a dash.
pub open spec fn dash_at(line: Seq<char>, n: int) -> bool {
    &&& 0 <= n < line.len()
    &&& line[n] == '-'
    &&& forall|k: int| 0 <= k < n ==> is_space(#[trigger] line[k])
}

proof fn lemma_trim_dashes(s: Seq<char>)
    ensures
        ({
            let n = s.len() - trim_start_all(s, "- "@).len();
            0 <= n <= s.len() && trim_start_all(s, "- "@) == s.skip(n) && (forall|k: int|
                0 <= k < n ==> is_outer(#[trigger] s[k])) && (starts_with(s, "- "@) ==> n >= 2)
        }),
    decreases s.len(),
{
    reveal_strlit("- ");
    let pat = "- "@;
    if starts_with(s, pat) {
        assert(s.subrange(0, 2)[0] == s[0] && s.subrange(0, 2)[1] == s[1]);
        let rest = s.skip(2);
        lemma_trim_dashes(rest);
        let n = s.len() - trim_start_all(s, pat).len();
        assert(rest.skip(n - 2) =~= s.skip(n));
        assert forall|k: int| 0 <= k < n implies is_outer(#[trigger] s[k]) by {
            if k >= 2 {
                assert(rest[k - 2] == s[k]);
            }
        }
    } else {
        assert(s.skip(0) =~= s);
    }
}

/// Where the entry of a list line stands, and where its dash does.
proof fn lemma_entry_place(line: Seq<char>) -> (r: (int, int, int))
    requires
        starts_with(trim(line), "- "@),
    ensures
        entry_between(line, r.1, r.2),
        dash_at(line, r.0),
        r.0 < r.1,
{
    reveal_strlit("- ");
    reveal_strlit("\"");
    let quote = "\""@;
    let a = trim_start(line);
    let t = trim(line);
    let d = trim_start_all(t, "- "@);
    let e0 = trim_start(d);
    let e = trim(d);
    let f = trim_start_of(e, quote);
    let g = trim_of(e, quote);
    lemma_trim_start_spaces(line);
    lemma_trim_end_spaces(a);
    lemma_trim_dashes(t);
    lemma_trim_start_spaces(d);
    lemma_trim_end_spaces(e0);
    lemma_trim_start_of_set(e, quote);
    lemma_trim_end_of_set(f, quote);
    let n0 = line.len() - a.len();
    let n1 = n0 + (t.len() - d.len());
    let n2 = n1 + (d.len() - e0.len());
    let p = n2 + (e.len() - f.len());
    let q = p + g.len();
    let end_t = n0 + t.len();
    assert(t =~= line.subrange(n0, end_t));
    assert(d =~= line.subrange(n1, end_t));
    assert(e0 =~= line.subrange(n2, end_t));
    let end_e = n2 + e.len();
    assert(e =~= line.subrange(n2, end_e));
    assert(f =~= line.subrange(p, end_e));
    assert(g =~= line.subrange(p, q));
    assert forall|k: int| 0 <= k < p implies is_outer(#[trigger] line[k]) by {
        if k < n0 {
        } else if k < n1 {
            assert(t[k - n0] == line[k]);
        } else if k < n2 {
            assert(d[k - n1] == line[k]);
        } else {
            assert(e[k - n2] == line[k]);
            assert(quote.contains(e[k - n2]));
        }
    }
    assert forall|k: int| q <= k < line.len() implies is_outer(#[trigger] line[k]) by {
        if k < end_e {
            assert(f[k - p] == line[k]);
            assert(quote.contains(f[k - p]));
        } else if k < end_t {
            assert(e0[k - n2] == line[k]);
        } else {
            assert(a[k - n0] == line[k]);
        }
    }
    assert(t.subrange(0, 2)[0] == t[0]);
    assert(line[n0] == '-');
    (n0, p, q)
}

/// A text that is not all outer characters stands in a line between outer characters only once.
proof fn lemma_entry_stands_once(line: Seq<char>, p: int, q: int, m: int, i: int)
    requires
        0 <= p <= m < q <= line.len(),
        !is_outer(line[m]),
        forall|k: int| 0 <= k < p ==> is_outer(#[trigger] line[k]),
        at(line, line.subrange(p, q), i),
    ensures
        i >= p,
{
    if i < p {
        let entry = line.subrange(p, q);
        let d = p - i;
        assert forall|k: int| 0 <= k < entry.len() implies is_outer(entry[k]) by {
            lemma_shifted_is_outer(line, p, q, i, k);
        }
        assert(entry[m - p] == line[m]);
    }
}

proof fn lemma_shifted_is_outer(line: Seq<char>, p: int, q: int, i: int, k: int)
    requires
        0 <= i < p <= q <= line.len(),
        forall|j: int| 0 <= j < p ==> is_outer(#[trigger] line[j]),
        at(line, line.subrange(p, q), i),
        0 <= k < q - p,
    ensures
        is_outer(line[p + k]),
    decreases k,
{
    let entry = line.subrange(p, q);
    assert(line.subrange(i, i + entry.len())[k] == line[i + k]);
    assert(entry[k] == line[p + k]);
    if i + k >= p {
        lemma_shifted_is_outer(line, p, q, i, k - (p - i));
    }
}

/// A mapping that is replaced holds a colon, and so does not end in white space.
proof fn lemma_replaced_mapping(mapping: Seq<char>, key: Seq<char>)
    requires
        mapping_with_variable(mapping, key) is Some,
    ensures
        exists|c: int| 0 <= c < mapping.len() && mapping[c] == ':',
        mapping.last() == ':' || is_digit(mapping.last()),
        has_no_feed(mapping) && has_no_feed(key) ==> has_no_feed(
            mapping_with_variable(mapping, key)->0,
        ),
{
    reveal_strlit(":");
    reveal_strlit(":${");
    reveal_strlit("${");
    reveal_strlit(":-");
    reveal_strlit("}:");
    lemma_rfind_to(mapping, ":"@, mapping.len() - 1);
    let colon = rfind(mapping, ":"@)->0;
    assert(mapping.subrange(colon, colon + 1)[0] == mapping[colon]);
    let container = mapping.skip(colon + 1);
    if container.len() > 0 {
        assert(container.last() == mapping.last());
        assert(is_digit(container[container.len() - 1]));
    }
    let host = mapping.take(colon);
    lemma_rfind_to(host, ":"@, host.len() - 1);
    if has_no_feed(mapping) && has_no_feed(key) {
        assert(has_no_feed(container));
        assert(has_no_feed(host));
        match rfind(host, ":"@) {
            Some(k) => {
                assert(has_no_feed(host.take(k)));
                assert(has_no_feed(host.skip(k + 1)));
            },
            None => {},
        }
    }
}

/// A line with its mapping replaced: what stands round the mapping stays.
pub proof fn lemma_replaced_line(
    line: Seq<char>,
    service: Option<Seq<char>>,
    env: Seq<EnvVariableView>,
) -> (r: (int, int, int))
    requires
        line_replacement(line, service, env) is Some,
    ensures
        entry_between(line, r.1, r.2),
        dash_at(line, r.0),
        r.0 < r.1 < r.2,
        list_entry(line) == line.subrange(r.1, r.2),
        line_replacement(line, service, env) matches Some((_, new_mapping)) && line_in_step(
            line,
            service,
            env,
        ) == line.take(r.1) + new_mapping + line.skip(r.2),
{
    let (n, p, q) = lemma_entry_place(line);
    let key = ascii_upper(service->0) + "_PORT"@;
    let old_mapping = list_entry(line);
    let new_mapping = mapping_with_variable(old_mapping, key)->0;
    lemma_replaced_mapping(old_mapping, key);
    let c = choose|c: int| 0 <= c < old_mapping.len() && old_mapping[c] == ':';
    let m = p + c;
    assert(line[m] == ':');
    assert(at(line, old_mapping, p));
    assert forall|j: int| 0 <= j < p implies !#[trigger] at(line, old_mapping, j) by {
        if at(line, old_mapping, j) {
            lemma_entry_stands_once(line, p, q, m, j);
        }
    }
    lemma_find_from_is(line, old_mapping, 0, p);
    let rest = line.skip(q);
    lemma_find(rest, old_mapping);
    if find(rest, old_mapping) is Some {
        let i = find(rest, old_mapping)->0;
        assert(rest.subrange(i, i + old_mapping.len())[c] == rest[i + c]);
        assert(rest[i + c] == line[q + i + c]);
        assert(is_outer(line[q + i + c]));
    }
    assert(replace_all(rest, old_mapping, new_mapping) == rest);
    (n, p, q)
}

/// What keeps a list line from being a header keeps it from that with another entry.
proof fn lemma_dash_line(line: Seq<char>, n: int)
    requires
        dash_at(line, n),
    ensures
        starts_with(trim(line), "-"@),
        !service_header(line),
{
    reveal_strlit("-");
    let a = trim_start(line);
    lemma_trim_start_spaces(line);
    let k = line.len() - a.len();
    lemma_trim_start_stops(line);
    if k > n {
        assert(is_space(line[n]));
    }
    if k < n {
        assert(a[0] == line[k]);
    }
    assert(a[0] == '-');
    lemma_trim_end_spaces(a);
    let t = trim(line);
    if t.len() == 0 {
        assert(is_space(a[0]));
    }
    assert(t[0] == '-');
    assert(t.subrange(0, 1) =~= "-"@);
}

/// A line that refers to a variable has an entry that does.
proof fn lemma_reference_is_in_entry(line: Seq<char>)
    requires
        starts_with(trim(line), "- "@),
        contains(line, "${"@),
    ensures
        contains(list_entry(line), "${"@),
{
    reveal_strlit("${");
    let (_, p, q) = lemma_entry_place(line);
    let j = choose|j: int| at(line, "${"@, j);
    assert(line.subrange(j, j + 2)[0] == line[j]);
    assert(line.subrange(j, j + 2)[1] == line[j + 1]);
    assert(!is_outer(line[j]) && !is_outer(line[j + 1]));
    assert(p <= j && j + 1 < q);
    assert(list_entry(line).subrange(j - p, j - p + 2) =~= "${"@);
    assert(at(list_entry(line), "${"@, j - p));
}

/// The names of services have no line feed in them.
proof fn lemma_service_is_on_a_line(rows: Seq<Seq<char>>, n: int)
    requires
        are_rows(rows),
        n <= rows.len(),
    ensures
        service_of(rows, n) matches Some(name) ==> has_no_feed(name),
    decreases n,
{
    if n > 0 {
        lemma_service_is_on_a_line(rows, n - 1);
        let line = rows[n - 1];
        assert(is_row(line));
        let a = trim_start(line);
        lemma_trim_start_spaces(line);
        lemma_trim_end_spaces(a);
        lemma_trim_end_stops(a);
        let t = trim(line);
        let n0 = line.len() - a.len();
        assert forall|k: int| 0 <= k < t.len() implies t[k] != '\n' by {
            assert(t[k] == line[n0 + k]);
            if n0 + k == line.len() - 1 {
                assert(t.last() == line.last());
            }
        }
        lemma_trim_end_of_set(t, ":"@);
    }
}

/// One line in step is a line, and is in step.
proof fn lemma_line_settles(line: Seq<char>, service: Option<Seq<char>>, env: Seq<EnvVariableView>)
    requires
        is_row(line),
        service matches Some(name) ==> has_no_feed(name),
    ensures
        is_row(line_in_step(line, service, env)),
        line_in_step(line, service, env).last() == line.last(),
        forall|before: Option<Seq<char>>|
            #![trigger service_at(before, line)]
            service_at(before, line_in_step(line, service, env)) == service_at(before, line),
        line_replacement(line_in_step(line, service, env), service, env) is None,
{
    let updated = line_in_step(line, service, env);
    if line_replacement(line, service, env) is Some {
        let (n, p, q) = lemma_replaced_line(line, service, env);
        let key = ascii_upper(service->0) + "_PORT"@;
        let old_mapping = list_entry(line);
        let new_mapping = mapping_with_variable(old_mapping, key)->0;
        assert(line_replacement(line, service, env) == Some((old_mapping, new_mapping)));
        lemma_replaced_mapping(old_mapping, key);
        law_mapping_is_replaced_once(old_mapping, key, key);
        reveal_strlit("_PORT");
        assert(old_mapping.last() == line[q - 1]);
        assert forall|k: int| 0 <= k < old_mapping.len() implies old_mapping[k] != '\n' by {
            assert(old_mapping[k] == line[p + k]);
        }
        let name = service->0;
        assert forall|k: int| 0 <= k < key.len() implies key[k] != '\n' by {
            if k < name.len() {
                assert(name[k] != '\n');
                assert(key[k] == upper_char(name[k]));
            }
        }
        assert(new_mapping.len() > 0) by {
            let j = choose|j: int| at(new_mapping, "${"@, j);
            reveal_strlit("${");
            assert(at(new_mapping, "${"@, j));
        }
        let head = line.take(p);
        let rest = line.skip(q);
        assert(updated == head + new_mapping + rest);
        assert(updated.len() > 0);
        assert forall|k: int| 0 <= k < updated.len() - 1 implies updated[k] != '\n' by {
            if k < p {
                assert(updated[k] == line[k]);
            } else if k < p + new_mapping.len() {
                assert(updated[k] == new_mapping[k - p]);
            } else {
                let j = k - p - new_mapping.len();
                assert(updated[k] == rest[j]);
                assert(rest[j] == line[q + j]);
            }
        }
        if rest.len() > 0 {
            assert(updated.last() == rest.last());
            assert(rest.last() == line.last());
        } else {
            lemma_new_mapping_end(old_mapping, key);
            assert(updated.last() == new_mapping.last());
            assert(line.last() == old_mapping.last());
        }
        assert(dash_at(updated, n)) by {
            assert(updated[n] == line[n]);
            assert forall|k: int| 0 <= k < n implies is_space(#[trigger] updated[k]) by {
                assert(updated[k] == line[k]);
            }
        }
        lemma_dash_line(updated, n);
        lemma_dash_line(line, n);
        let j = choose|j: int| at(new_mapping, "${"@, j);
        assert(updated.subrange(p + j, p + j + "${"@.len()) =~= new_mapping.subrange(
            j,
            j + "${"@.len(),
        ));
        assert(at(updated, "${"@, p + j));
        if starts_with(trim(updated), "- "@) {
            lemma_reference_is_in_entry(updated);
        }
    }
}

/// A mapping ends as it did.
proof fn lemma_new_mapping_end(mapping: Seq<char>, key: Seq<char>)
    requires
        mapping_with_variable(mapping, key) is Some,
    ensures
        mapping_with_variable(mapping, key)->0.last() == mapping.last(),
{
    reveal_strlit(":");
    reveal_strlit("}:");
    lemma_rfind_to(mapping, ":"@, mapping.len() - 1);
    let colon = rfind(mapping, ":"@)->0;
    assert(mapping.subrange(colon, colon + 1)[0] == mapping[colon]);
    let container = mapping.skip(colon + 1);
    let updated = mapping_with_variable(mapping, key)->0;
    if container.len() > 0 {
        assert(container.last() == mapping.last());
        assert(updated.last() == container.last());
    } else {
        assert(colon == mapping.len() - 1);
        assert(updated.last() == ':');
    }
}

/// The lines of a file in step are the lines of the file in step.
proof fn lemma_rows_settle(rows: Seq<Seq<char>>, env: Seq<EnvVariableView>)
    requires
        are_rows(rows),
    ensures
        are_rows(rows_in_step(rows, env)),
        forall|n: int|
            0 <= n <= rows.len() ==> #[trigger] service_of(rows_in_step(rows, env), n)
                == service_of(rows, n),
        rows_in_step(rows_in_step(rows, env), env) == rows_in_step(rows, env),
{
    let done = rows_in_step(rows, env);
    assert forall|i: int| 0 <= i < rows.len() implies is_row(#[trigger] done[i]) && done[i].last()
        == rows[i].last() && line_replacement(done[i], service_of(rows, i + 1), env) is None by {
        lemma_service_is_on_a_line(rows, i + 1);
        assert(is_row(rows[i]));
        lemma_line_settles(rows[i], service_of(rows, i + 1), env);
    }
    assert forall|n: int| 0 <= n <= rows.len() implies #[trigger] service_of(done, n)
        == service_of(rows, n) by {
        lemma_services_stay(rows, env, n);
    }
    let again = rows_in_step(done, env);
    assert forall|i: int| 0 <= i < rows.len() implies again[i] == done[i] by {
        assert(service_of(done, i + 1) == service_of(rows, i + 1));
        assert(line_replacement(done[i], service_of(rows, i + 1), env) is None);
    }
    assert(again =~= done);
}

proof fn lemma_services_stay(rows: Seq<Seq<char>>, env: Seq<EnvVariableView>, n: int)
    requires
        are_rows(rows),
        0 <= n <= rows.len(),
    ensures
        service_of(rows_in_step(rows, env), n) == service_of(rows, n),
    decreases n,
{
    if n > 0 {
        lemma_services_stay(rows, env, n - 1);
        lemma_service_is_on_a_line(rows, n);
        assert(is_row(rows[n - 1]));
        lemma_line_settles(rows[n - 1], service_of(rows, n), env);
        assert(service_at(service_of(rows, n - 1), rows[n - 1]) == service_of(rows, n));
    }
}

// ---------------------------------------------------------------------------------------------
// Laws
// ---------------------------------------------------------------------------------------------
/// What takes the place of a mapping refers to a variable, and so is not replaced again.
pub proof fn law_mapping_is_replaced_once(mapping: Seq<char>, key: Seq<char>, other: Seq<char>)
    ensures
        mapping_with_variable(mapping, key) matches Some(updated) ==> contains(updated, "${"@)
            && mapping_with_variable(updated, other) is None,
{
    reveal_strlit(":${");
    reveal_strlit("${");
    reveal_strlit(":");
    if mapping_with_variable(mapping, key) is Some {
        let updated = mapping_with_variable(mapping, key)->0;
        lemma_rfind_to(mapping, ":"@, mapping.len() - 1);
        let colon = rfind(mapping, ":"@)->0;
        let host = mapping.take(colon);
        lemma_rfind_to(host, ":"@, host.len() - 1);
        match rfind(host, ":"@) {
            Some(k) => {
                assert(updated.subrange(k + 1, k + 3) =~= "${"@);
                assert(at(updated, "${"@, k + 1));
            },
            None => {
                assert(updated.subrange(0, 2) =~= "${"@);
                assert(at(updated, "${"@, 0));
            },
        }
    }
}

/// A second run over a compose file changes nothing.
pub proof fn law_second_run_changes_nothing(content: Seq<char>, env: Seq<EnvVariableView>)
    ensures
        compose_in_step(compose_in_step(content, env), env) == compose_in_step(content, env),
{
    let rows = full_lines(content);
    lemma_full_lines_are_rows(content);
    lemma_rows_settle(rows, env);
    lemma_rows_are_full_lines(rows_in_step(rows, env));
}

/// A compose file keeps its lines. A line changes only where its own mapping is replaced.
pub proof fn law_other_lines_stay(content: Seq<char>, env: Seq<EnvVariableView>)
    ensures
        full_lines(compose_in_step(content, env)).len() == full_lines(content).len(),
        forall|i: int|
            0 <= i < full_lines(content).len() && line_replacement(
                full_lines(content)[i],
                service_of(full_lines(content), i + 1),
                env,
            ) is None ==> #[trigger] full_lines(compose_in_step(content, env))[i] == full_lines(
                content,
            )[i],
{
    let rows = full_lines(content);
    lemma_full_lines_are_rows(content);
    lemma_rows_settle(rows, env);
    lemma_rows_are_full_lines(rows_in_step(rows, env));
}

/// A line that refers to a variable already is not modified again.
pub proof fn law_referring_line_stays(content: Seq<char>, env: Seq<EnvVariableView>, i: int)
    requires
        0 <= i < full_lines(content).len(),
        contains(list_entry(full_lines(content)[i]), "${"@),
    ensures
        full_lines(compose_in_step(content, env)).len() == full_lines(content).len(),
        full_lines(compose_in_step(content, env))[i] == full_lines(content)[i],
{
    law_other_lines_stay(content, env);
}

/// The lines of a service that no variable holds the port of are not modified, nor are those that
/// belong to no service.
pub proof fn law_line_without_variable_stays(content: Seq<char>, env: Seq<EnvVariableView>, i: int)
    requires
        0 <= i < full_lines(content).len(),
        service_of(full_lines(content), i + 1) matches Some(name) ==> index_with_upper_key(
            env,
            ascii_upper(name) + "_PORT"@,
            0,
        ) is None,
    ensures
        full_lines(compose_in_step(content, env)).len() == full_lines(content).len(),
        full_lines(compose_in_step(content, env))[i] == full_lines(content)[i],
{
    law_other_lines_stay(content, env);
}

/// A compose file stays as it is where no variable holds the port of one of its services.
pub proof fn law_file_without_variables_stays(content: Seq<char>, env: Seq<EnvVariableView>)
    requires
        forall|n: int|
            0 < n <= full_lines(content).len() ==> (#[trigger] service_of(full_lines(content), n)
                matches Some(name) ==> index_with_upper_key(env, ascii_upper(name) + "_PORT"@, 0)
                is None),
    ensures
        compose_in_step(content, env) == content,
{
    let rows = full_lines(content);
    lemma_full_lines(content);
    assert forall|i: int| 0 <= i < rows.len() implies rows_in_step(rows, env)[i] == rows[i] by {
        assert(service_of(rows, i + 1) matches Some(name) ==> index_with_upper_key(
            env,
            ascii_upper(name) + "_PORT"@,
            0,
        ) is None);
    }
    assert(rows_in_step(rows, env) =~= rows);
}

/// Only the keys of the variables matter, not their values.
pub proof fn law_only_keys_matter(
    content: Seq<char>,
    env: Seq<EnvVariableView>,
    other: Seq<EnvVariableView>,
)
    requires
        env.len() == other.len(),
        forall|i: int| 0 <= i < env.len() ==> (#[trigger] env[i]).key == other[i].key,
    ensures
        compose_in_step(content, env) == compose_in_step(content, other),
{
    let rows = full_lines(content);
    assert forall|i: int| 0 <= i < rows.len() implies rows_in_step(rows, env)[i] == rows_in_step(
        rows,
        other,
    )[i] by {
        match service_of(rows, i + 1) {
            Some(name) => {
                lemma_keys_are_found(env, other, ascii_upper(name) + "_PORT"@, 0);
            },
            None => {},
        }
    }
    assert(rows_in_step(rows, env) =~= rows_in_step(rows, other));
}

proof fn lemma_keys_are_found(
    env: Seq<EnvVariableView>,
    other: Seq<EnvVariableView>,
    key: Seq<char>,
    i: int,
)
    requires
        env.len() == other.len(),
        forall|k: int| 0 <= k < env.len() ==> (#[trigger] env[k]).key == other[k].key,
    ensures
        index_with_upper_key(env, key, i) == index_with_upper_key(other, key, i),
    decreases env.len() - i,
{
    if 0 <= i < env.len() {
        assert(env[i].key == other[i].key);
        lemma_keys_are_found(env, other, key, i + 1);
    }
}

} // verus!
