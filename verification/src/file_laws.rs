//! How the lines of the manifest and of the compose file of an instance follow its variables.
use vstd::prelude::*;

use crate::compose::{
    lemma_replaced_line, line_in_step, list_entry, mapping_with_variable, service_at,
    service_header,
};
use crate::env::{last_with_key, EnvVariableView};
use crate::lifecycle::{
    manifest_in_step, manifest_line, manifest_run, name_line, section_env_key, section_service,
    string_value, toml_comment, url_line, with_string_value,
};
use crate::logs::lemma_byte_len_concat;
use crate::number::all_digits;
use crate::ports::local_port_key;
use crate::rows::{concatenated, line_body, line_ending};
use crate::search::{
    at, contains, ends_with, lemma_at_char, lemma_find_any_from_is, lemma_first_char,
    lemma_last_char, lemma_rfind_to, lemma_trim_is_trimmed, rfind, starts_with, trim, trim_end,
    trim_end_of, trim_start, trim_start_all, trim_start_of,
};
use crate::services::{first_env_port, service_port_keys};
use crate::split::full_lines;
use crate::text::{ascii_upper, byte_len, is_digit, is_space};
use crate::urls::url_with_port;
use crate::variable_laws::{is_unnamed, lemma_index};

verus! {

// ---------------------------------------------------------------------------------------------
// Lines of a manifest
// ---------------------------------------------------------------------------------------------
/// A string value stands between two equal quotes behind the equals sign of its key. Replacing it
/// leaves the key, the quotes and what follows them as they are; a line of another key stays.
pub proof fn law_string_value_is_replaced(
    key: Seq<char>,
    between: Seq<char>,
    quote: char,
    value: Seq<char>,
    behind: Seq<char>,
    keys: Seq<Seq<char>>,
    updated: Seq<char>,
)
    requires
        quote == '\'' || quote == '"',
        !contains(key, "="@),
        forall|k: int| 0 <= k < between.len() ==> between[k] != '\'' && between[k] != '"',
        forall|k: int| 0 <= k < value.len() ==> value[k] != quote,
    ensures
        ({
            let line = key + "="@ + between + seq![quote] + value + seq![quote] + behind;
            &&& keys.contains(trim(key)) ==> with_string_value(line, keys, updated) == key + "="@
                + between + seq![quote] + updated + seq![quote] + behind
            &&& !keys.contains(trim(key)) ==> with_string_value(line, keys, updated) == line
        }),
{
    lemma_string_value(key, between, quote, value, behind, keys);
    let line = key + "="@ + between + seq![quote] + value + seq![quote] + behind;
    let from = (key.len() + 1 + between.len() + 1) as int;
    reveal_strlit("=");
    assert(line.take(from) + updated + line.skip(from + value.len()) =~= key + "="@ + between
        + seq![quote] + updated + seq![quote] + behind);
}

proof fn lemma_string_value(
    key: Seq<char>,
    between: Seq<char>,
    quote: char,
    value: Seq<char>,
    behind: Seq<char>,
    keys: Seq<Seq<char>>,
)
    requires
        quote == '\'' || quote == '"',
        !contains(key, "="@),
        forall|k: int| 0 <= k < between.len() ==> between[k] != '\'' && between[k] != '"',
        forall|k: int| 0 <= k < value.len() ==> value[k] != quote,
    ensures
        ({
            let line = key + "="@ + between + seq![quote] + value + seq![quote] + behind;
            let from = (key.len() + 1 + between.len() + 1) as int;
            &&& keys.contains(trim(key)) ==> string_value(line, keys) == Some(
                (from, from + value.len()),
            )
            &&& !keys.contains(trim(key)) ==> string_value(line, keys) is None
            &&& line.subrange(from, from + value.len()) == value
        }),
{
    reveal_strlit("=");
    reveal_strlit("'\"");
    assert("="@ =~= seq!['=']);
    let line = key + "="@ + between + seq![quote] + value + seq![quote] + behind;
    let n = key.len() as int;
    let from = n + 1 + between.len() + 1;
    assert(line.subrange(from, from + value.len()) =~= value);
    assert forall|j: int| 0 <= j < n implies line[j] != '=' by {
        assert(line[j] == key[j]);
        lemma_at_char(key, '=', j);
        assert(!at(key, "="@, j));
    }
    assert(line[n] == '=');
    lemma_first_char(line, '=', n);
    assert(line.take(n) =~= key);
    let rest = line.skip(n + 1);
    assert(rest =~= between + seq![quote] + value + seq![quote] + behind);
    let set = "'\""@;
    assert(set[0] == '\'' && set[1] == '"');
    let open = between.len() as int;
    assert(rest[open] == quote);
    assert(set.contains(quote));
    assert forall|j: int| 0 <= j < open implies !set.contains(#[trigger] rest[j]) by {
        assert(rest[j] == between[j]);
    }
    lemma_find_any_from_is(rest, set, 0, open);
    let inner = rest.skip(open + 1);
    assert(inner =~= value + seq![quote] + behind);
    assert forall|j: int| 0 <= j < value.len() implies inner[j] != quote by {
        assert(inner[j] == value[j]);
    }
    assert(inner[value.len() as int] == quote);
    lemma_first_char(inner, quote, value.len() as int);
}

/// A line `url = ".."` or `target = ".."` takes a port in its URL, and nothing else of it changes. A
/// URL that refers to a variable stays, and so does a line of another key.
pub proof fn law_url_lines_take_ports(
    key: Seq<char>,
    between: Seq<char>,
    quote: char,
    url: Seq<char>,
    behind: Seq<char>,
    port: nat,
)
    requires
        quote == '\'' || quote == '"',
        !contains(key, "="@),
        forall|k: int| 0 <= k < between.len() ==> between[k] != '\'' && between[k] != '"',
        forall|k: int| 0 <= k < url.len() ==> url[k] != quote,
    ensures
        ({
            let line = key + "="@ + between + seq![quote] + url + seq![quote] + behind;
            let known = trim(key) == "url"@ || trim(key) == "target"@;
            &&& known && !contains(url, "${"@) ==> url_line(line, port) == key + "="@ + between
                + seq![quote] + url_with_port(url, port) + seq![quote] + behind
            &&& !known || contains(url, "${"@) ==> url_line(line, port) == line
        }),
{
    let keys = seq!["url"@, "target"@];
    assert(keys[0] == "url"@ && keys[1] == "target"@);
    lemma_string_value(key, between, quote, url, behind, keys);
    law_string_value_is_replaced(
        key,
        between,
        quote,
        url,
        behind,
        keys,
        url_with_port(url, port),
    );
    if keys.contains(trim(key)) {
        let k = choose|k: int| 0 <= k < keys.len() && keys[k] == trim(key);
        assert(k == 0 || k == 1);
    }
}

/// What a section header is about: `[services.name]` and `[checks.name]` a service, `[env.KEY]` a
/// variable, and any other nothing.
pub proof fn law_section_headers(group: Seq<char>, name: Seq<char>)
    requires
        !contains(group, "."@),
        group.len() > 0,
        name.len() > 0,
        trim(group) == group,
        trim(name) == name,
        name[0] != '\'' && name[0] != '"' && name.last() != '\'' && name.last() != '"',
    ensures
        ({
            let header = "["@ + group + "."@ + name + "]"@;
            &&& section_service(header) == (if group == "services"@ || group == "checks"@ {
                Some(name)
            } else {
                None
            })
            &&& section_env_key(header) == (if group == "env"@ {
                Some(name)
            } else {
                None
            })
        }),
{
    reveal_strlit("[");
    reveal_strlit("]");
    reveal_strlit(".");
    reveal_strlit("'\"");
    assert("."@ =~= seq!['.']);
    let header = "["@ + group + "."@ + name + "]"@;
    assert(header.subrange(0, 1) =~= "["@);
    let rest = header.skip(1);
    assert(rest.subrange(rest.len() - 1, rest.len() as int) =~= "]"@);
    let inner = rest.take(rest.len() - 1);
    assert(inner =~= group + "."@ + name);
    lemma_trim_is_trimmed(group);
    lemma_trim_is_trimmed(name);
    assert(inner[0] == group[0] && inner.last() == name.last());
    assert(trim_start(inner) == inner);
    assert(trim_end(inner) == inner);
    let n = group.len() as int;
    assert forall|j: int| 0 <= j < n implies inner[j] != '.' by {
        assert(inner[j] == group[j]);
        lemma_at_char(group, '.', j);
        assert(!at(group, "."@, j));
    }
    assert(inner[n] == '.');
    lemma_first_char(inner, '.', n);
    assert(inner.take(n) =~= group);
    assert(inner.skip(n + 1) =~= name);
    let set = "'\""@;
    assert(set[0] == '\'' && set[1] == '"');
    assert(forall|c: char| set.contains(c) ==> c == '\'' || c == '"');
    assert(trim_start_of(name, set) == name);
    assert(trim_end_of(name, set) == name);
}

/// Goes through a manifest line by line: the lines keep their order and their number, and each one
/// follows the section that it stands in, which is that of the last header at or before it.
pub proof fn law_manifest_follows_line_by_line(content: Seq<char>, env: Seq<EnvVariableView>)
    ensures
        exists|done: Seq<Seq<char>>| #[trigger]
            concatenated(done) == manifest_in_step(content, env) && done.len() == full_lines(
                content,
            ).len() && lines_follow(full_lines(content), done, env),
{
    let rows = full_lines(content);
    let done = Seq::new(
        rows.len(),
        |i: int|
            manifest_line(
                rows[i],
                manifest_run(rows.take(i + 1), env).service,
                manifest_run(rows.take(i + 1), env).env_key,
                env,
            ),
    );
    lemma_run_by_lines(rows, env, rows.len());
    assert(rows.take(rows.len() as int) =~= rows);
    assert(done.take(done.len() as int) =~= done);
    assert(lines_follow(rows, done, env)) by {
        assert forall|h: int, i: int|
            0 <= h <= i < rows.len() && starts_with(trim(#[trigger] rows[h]), "["@) && (forall|
                k: int,
            |
                h < k <= i ==> !starts_with(trim(#[trigger] rows[k]), "["@)) implies #[trigger] done[i]
            == manifest_line(
            rows[i],
            section_service(trim(rows[h])),
            section_env_key(trim(rows[h])),
            env,
        ) by {
            lemma_section_lasts(rows, env, h, i);
        }
        assert forall|i: int|
            0 <= i < rows.len() && (forall|k: int|
                0 <= k <= i ==> !starts_with(trim(#[trigger] rows[k]), "["@)) implies #[trigger] done[i]
            == rows[i] by {
            lemma_no_section(rows, env, i);
        }
    }
}

/// Each line follows the section that it stands in; a line before the first header stays.
pub open spec fn lines_follow(
    rows: Seq<Seq<char>>,
    done: Seq<Seq<char>>,
    env: Seq<EnvVariableView>,
) -> bool {
    &&& forall|h: int, i: int|
        0 <= h <= i < rows.len() && starts_with(trim(#[trigger] rows[h]), "["@) && (forall|k: int|
            h < k <= i ==> !starts_with(trim(#[trigger] rows[k]), "["@)) ==> #[trigger] done[i]
            == manifest_line(
            rows[i],
            section_service(trim(rows[h])),
            section_env_key(trim(rows[h])),
            env,
        )
    &&& forall|i: int|
        0 <= i < rows.len() && (forall|k: int|
            0 <= k <= i ==> !starts_with(trim(#[trigger] rows[k]), "["@)) ==> #[trigger] done[i]
            == rows[i]
}

proof fn lemma_run_by_lines(rows: Seq<Seq<char>>, env: Seq<EnvVariableView>, n: nat)
    requires
        n <= rows.len(),
    ensures
        ({
            let done = Seq::new(
                rows.len(),
                |i: int|
                    manifest_line(
                        rows[i],
                        manifest_run(rows.take(i + 1), env).service,
                        manifest_run(rows.take(i + 1), env).env_key,
                        env,
                    ),
            );
            manifest_run(rows.take(n as int), env).output == concatenated(done.take(n as int))
        }),
    decreases n,
{
    let done = Seq::new(
        rows.len(),
        |i: int|
            manifest_line(
                rows[i],
                manifest_run(rows.take(i + 1), env).service,
                manifest_run(rows.take(i + 1), env).env_key,
                env,
            ),
    );
    if n == 0 {
        assert(rows.take(0) =~= Seq::<Seq<char>>::empty());
        assert(done.take(0) =~= Seq::<Seq<char>>::empty());
    } else {
        lemma_run_by_lines(rows, env, (n - 1) as nat);
        assert(rows.take(n as int).drop_last() =~= rows.take(n - 1));
        assert(rows.take(n as int).last() == rows[n - 1]);
        assert(done.take(n as int).drop_last() =~= done.take(n - 1));
        assert(done.take(n as int).last() == done[n - 1]);
    }
}

proof fn lemma_section_lasts(rows: Seq<Seq<char>>, env: Seq<EnvVariableView>, h: int, i: int)
    requires
        0 <= h <= i < rows.len(),
        starts_with(trim(rows[h]), "["@),
        forall|k: int| h < k <= i ==> !starts_with(trim(#[trigger] rows[k]), "["@),
    ensures
        manifest_run(rows.take(i + 1), env).service == section_service(trim(rows[h])),
        manifest_run(rows.take(i + 1), env).env_key == section_env_key(trim(rows[h])),
    decreases i - h,
{
    assert(rows.take(i + 1).drop_last() =~= rows.take(i));
    assert(rows.take(i + 1).last() == rows[i]);
    if h < i {
        lemma_section_lasts(rows, env, h, i - 1);
        assert(!starts_with(trim(rows[i]), "["@));
    }
}

proof fn lemma_no_section(rows: Seq<Seq<char>>, env: Seq<EnvVariableView>, i: int)
    requires
        -1 <= i < rows.len(),
        forall|k: int| 0 <= k <= i ==> !starts_with(trim(#[trigger] rows[k]), "["@),
    ensures
        manifest_run(rows.take(i + 1), env).service is None,
        manifest_run(rows.take(i + 1), env).env_key is None,
    decreases i + 1,
{
    if i < 0 {
        assert(rows.take(0) =~= Seq::<Seq<char>>::empty());
    } else {
        assert(rows.take(i + 1).drop_last() =~= rows.take(i));
        assert(rows.take(i + 1).last() == rows[i]);
        assert(!starts_with(trim(rows[i]), "["@));
        lemma_no_section(rows, env, i - 1);
    }
}

/// What a line of a section becomes. In the section of a service that the variables give a port, its
/// URL takes that port. In the section of a variable that holds the port of a service of the
/// instance, its default takes the last value of that variable. Any other line stays.
pub proof fn law_lines_of_a_section(
    line: Seq<char>,
    name: Seq<char>,
    env: Seq<EnvVariableView>,
)
    ensures
        first_env_port(env, service_port_keys(name)) matches Some(port) ==> manifest_line(
            line,
            Some(name),
            None,
            env,
        ) == url_line(line, port),
        first_env_port(env, service_port_keys(name)) is None ==> manifest_line(
            line,
            Some(name),
            None,
            env,
        ) == line,
        local_port_key(name) ==> (last_with_key(env, name) matches Some(entry) ==> manifest_line(
            line,
            None,
            Some(name),
            env,
        ) == with_string_value(line, seq!["default"@], entry.value)),
        !local_port_key(name) || last_with_key(env, name) is None ==> manifest_line(
            line,
            None,
            Some(name),
            env,
        ) == line,
        manifest_line(line, None, None, env) == line,
{
}

/// The name of a project is replaced between the white space round it; what stands before it, the
/// comment behind it and the end of the line stay.
pub proof fn law_name_is_replaced_in_its_place(
    key: Seq<char>,
    lead: Seq<char>,
    old: Seq<char>,
    tail: Seq<char>,
    comment: Seq<char>,
    quoted: Seq<char>,
)
    requires
        trim(key) == "name"@,
        !contains(key, "="@),
        old.len() > 0,
        !is_space(old[0]),
        !is_space(old.last()),
        forall|k: int| 0 <= k < lead.len() ==> is_space(#[trigger] lead[k]),
        forall|k: int| 0 <= k < tail.len() ==> is_space(#[trigger] tail[k]),
        toml_comment(lead + old + tail + comment, 0, None, false) == lead.len() + old.len()
            + tail.len(),
        line_ending(key + "="@ + lead + old + tail + comment) == Seq::<char>::empty(),
    ensures
        name_line(key + "="@ + lead + old + tail + comment, quoted) == key + "="@ + lead + quoted
            + tail + comment,
{
    reveal_strlit("=");
    assert("="@ =~= seq!['=']);
    let line = key + "="@ + lead + old + tail + comment;
    let n = key.len() as int;
    assert(line_body(line) =~= line);
    assert forall|j: int| 0 <= j < n implies line[j] != '=' by {
        assert(line[j] == key[j]);
        lemma_at_char(key, '=', j);
        assert(!at(key, "="@, j));
    }
    assert(line[n] == '=');
    lemma_first_char(line, '=', n);
    assert(line.take(n) =~= key);
    let value = line.skip(n + 1);
    assert(value =~= lead + old + tail + comment);
    let end = (lead.len() + old.len() + tail.len()) as int;
    let old_value = value.take(end);
    assert(old_value =~= lead + old + tail);
    lemma_leading_spaces(lead, old + tail);
    assert(lead + (old + tail) =~= old_value);
    lemma_trailing_spaces(lead + old, tail);
    assert((lead + old).last() == old.last());
    assert(old_value.take(lead.len() as int) =~= lead);
    assert(old_value.skip((lead.len() + old.len()) as int) =~= tail);
    assert(value.skip(end) =~= comment);
    assert(line.take(n + 1) =~= key + "="@);
    assert(name_line(line, quoted) =~= key + "="@ + lead + quoted + tail + comment);
}

proof fn lemma_leading_spaces(lead: Seq<char>, rest: Seq<char>)
    requires
        forall|k: int| 0 <= k < lead.len() ==> is_space(#[trigger] lead[k]),
        rest.len() > 0,
        !is_space(rest[0]),
    ensures
        trim_start(lead + rest) == rest,
    decreases lead.len(),
{
    if lead.len() == 0 {
        assert(lead + rest =~= rest);
    } else {
        assert((lead + rest).skip(1) =~= lead.skip(1) + rest);
        assert((lead + rest)[0] == lead[0]);
        assert forall|k: int| 0 <= k < lead.skip(1).len() implies is_space(
            #[trigger] lead.skip(1)[k],
        ) by {
            assert(lead.skip(1)[k] == lead[k + 1]);
        }
        lemma_leading_spaces(lead.skip(1), rest);
    }
}

proof fn lemma_trailing_spaces(start: Seq<char>, tail: Seq<char>)
    requires
        forall|k: int| 0 <= k < tail.len() ==> is_space(#[trigger] tail[k]),
        start.len() > 0,
        !is_space(start.last()),
    ensures
        trim_end(start + tail) == start,
    decreases tail.len(),
{
    if tail.len() == 0 {
        assert(start + tail =~= start);
    } else {
        assert((start + tail).drop_last() =~= start + tail.drop_last());
        assert((start + tail).last() == tail[tail.len() - 1]);
        assert forall|k: int| 0 <= k < tail.drop_last().len() implies is_space(
            #[trigger] tail.drop_last()[k],
        ) by {
            assert(tail.drop_last()[k] == tail[k]);
        }
        lemma_trailing_spaces(start, tail.drop_last());
    }
}

// ---------------------------------------------------------------------------------------------
// Lines of a compose file
// ---------------------------------------------------------------------------------------------
/// The port of the host in a mapping of ports becomes a reference to the variable, with the port as
/// its default; the port of the container stays, and so does the address before the port of the
/// host. A mapping of something else, such as of directories, stays.
pub proof fn law_host_port_becomes_a_reference(
    address: Seq<char>,
    host: Seq<char>,
    container: Seq<char>,
    key: Seq<char>,
)
    requires
        forall|k: int| 0 <= k < address.len() ==> #[trigger] address[k] != '$',
        all_digits(host),
    ensures
        all_digits(container) ==> mapping_with_variable(host + ":"@ + container, key) == Some(
            "${"@ + key + ":-"@ + host + "}:"@ + container,
        ),
        all_digits(container) ==> mapping_with_variable(
            address + ":"@ + host + ":"@ + container,
            key,
        ) == Some(address + ":${"@ + key + ":-"@ + host + "}:"@ + container),
        !all_digits(container) && !contains(container, ":"@) ==> mapping_with_variable(
            host + ":"@ + container,
            key,
        ) is None,
        !contains(address, ":"@) ==> mapping_with_variable(address, key) is None,
{
    reveal_strlit(":");
    reveal_strlit("${");
    assert(":"@ =~= seq![':']);
    let one = host + ":"@ + container;
    let two = address + ":"@ + host + ":"@ + container;
    let n = host.len() as int;
    let m = address.len() as int;
    assert forall|j: int| 0 <= j < n implies host[j] != ':' && host[j] != '$' by {
        assert(is_digit(host[j]));
    }
    if all_digits(container) {
        assert forall|j: int| 0 <= j < container.len() implies container[j] != ':' && container[j]
            != '$' by {
            assert(is_digit(container[j]));
        }
        assert(!contains(one, "${"@)) by {
            if contains(one, "${"@) {
                let j = choose|j: int| at(one, "${"@, j);
                assert(one.subrange(j, j + 2)[0] == one[j]);
                if j < n {
                    assert(one[j] == host[j]);
                } else if j > n {
                    assert(one[j] == container[j - n - 1]);
                }
            }
        }
        assert(one[n] == ':');
        assert forall|j: int| n < j < one.len() implies one[j] != ':' by {
            assert(one[j] == container[j - n - 1]);
        }
        lemma_last_char(one, ':', n);
        assert(one.skip(n + 1) =~= container);
        assert(one.take(n) =~= host);
        lemma_rfind_to(host, ":"@, host.len() - 1);
        if rfind(host, ":"@) is Some {
            lemma_at_char(host, ':', rfind(host, ":"@)->0);
        }
        assert(!contains(two, "${"@)) by {
            if contains(two, "${"@) {
                let j = choose|j: int| at(two, "${"@, j);
                assert(two.subrange(j, j + 2)[0] == two[j]);
                if j < m {
                    assert(two[j] == address[j]);
                } else if m < j < m + 1 + n {
                    assert(two[j] == host[j - m - 1]);
                } else if j > m + 1 + n {
                    assert(two[j] == container[j - m - n - 2]);
                }
            }
        }
        let c = m + 1 + n;
        assert(two[c] == ':');
        assert forall|j: int| c < j < two.len() implies two[j] != ':' by {
            assert(two[j] == container[j - c - 1]);
        }
        lemma_last_char(two, ':', c);
        assert(two.skip(c + 1) =~= container);
        let before = two.take(c);
        assert(before =~= address + ":"@ + host);
        assert(before[m] == ':');
        assert forall|j: int| m < j < before.len() implies before[j] != ':' by {
            assert(before[j] == host[j - m - 1]);
        }
        lemma_last_char(before, ':', m);
        assert(before.take(m) =~= address);
        assert(before.skip(m + 1) =~= host);
    }
    if !all_digits(container) && !contains(container, ":"@) {
        assert(one[n] == ':');
        assert forall|j: int| n < j < one.len() implies one[j] != ':' by {
            assert(one[j] == container[j - n - 1]);
            lemma_at_char(container, ':', j - n - 1);
            assert(!at(container, ":"@, j - n - 1));
        }
        lemma_last_char(one, ':', n);
        assert(one.skip(n + 1) =~= container);
    }
    if !contains(address, ":"@) {
        lemma_rfind_to(address, ":"@, address.len() - 1);
        if rfind(address, ":"@) is Some {
            assert(at(address, ":"@, rfind(address, ":"@)->0));
        }
    }
}

/// The entry of a list line is what stands behind its dash, with or without quotes round it.
pub proof fn law_entry_of_a_list_line(lead: Seq<char>, entry: Seq<char>, tail: Seq<char>)
    requires
        forall|k: int| 0 <= k < lead.len() ==> is_space(#[trigger] lead[k]),
        forall|k: int| 0 <= k < tail.len() ==> is_space(#[trigger] tail[k]),
        entry.len() > 0,
        entry[0] != '"' && entry[0] != '-' && !is_space(entry[0]),
        entry.last() != '"' && !is_space(entry.last()),
    ensures
        list_entry(lead + "- "@ + entry + tail) == entry,
        list_entry(lead + "- \""@ + entry + "\""@ + tail) == entry,
{
    reveal_strlit("- ");
    reveal_strlit("- \"");
    reveal_strlit("\"");
    let set = "\""@;
    assert(set[0] == '"');
    assert(forall|c: char| set.contains(c) ==> c == '"');
    let plain = "- "@ + entry;
    assert(lead + "- "@ + entry + tail =~= lead + (plain + tail));
    lemma_entry(lead, plain, tail);
    let d = plain.skip(2);
    assert(d =~= entry);
    assert(plain.subrange(0, 2) =~= "- "@);
    lemma_no_dash(entry);
    assert(trim_start_all(plain, "- "@) == entry);
    assert(trim_start(entry) == entry);
    assert(trim_end(entry) == entry);
    assert(trim_start_of(entry, set) == entry);
    assert(trim_end_of(entry, set) == entry);
    let inner = "\""@ + entry + "\""@;
    let quoted = "- "@ + inner;
    assert(lead + "- \""@ + entry + "\""@ + tail =~= lead + (quoted + tail));
    lemma_entry(lead, quoted, tail);
    assert(quoted.skip(2) =~= inner);
    assert(quoted.subrange(0, 2) =~= "- "@);
    lemma_no_dash(inner);
    assert(trim_start_all(quoted, "- "@) == inner);
    assert(inner[0] == '"' && inner.last() == '"');
    assert(trim_start(inner) == inner);
    assert(trim_end(inner) == inner);
    let rest = entry + "\""@;
    assert(inner.skip(1) =~= rest);
    assert(rest[0] == entry[0]);
    assert(set.contains(inner[0]));
    assert(trim_start_of(rest, set) == rest);
    assert(trim_start_of(inner, set) == rest);
    assert(rest.last() == '"');
    assert(set.contains(rest.last()));
    assert(rest.drop_last() =~= entry);
    assert(trim_end_of(rest, set) == entry);
}

proof fn lemma_no_dash(s: Seq<char>)
    requires
        s.len() > 0,
        s[0] != '-',
    ensures
        trim_start_all(s, "- "@) == s,
{
    reveal_strlit("- ");
    if starts_with(s, "- "@) {
        assert(s.subrange(0, 2)[0] == s[0]);
    }
}

proof fn lemma_entry(lead: Seq<char>, text: Seq<char>, tail: Seq<char>)
    requires
        forall|k: int| 0 <= k < lead.len() ==> is_space(#[trigger] lead[k]),
        forall|k: int| 0 <= k < tail.len() ==> is_space(#[trigger] tail[k]),
        text.len() > 0,
        !is_space(text[0]),
        !is_space(text.last()),
    ensures
        trim(lead + (text + tail)) == text,
{
    lemma_leading_spaces(lead, text + tail);
    lemma_trailing_spaces(text, tail);
}

/// A line of a service that maps a port, where the variables hold the port of that service, refers to
/// its variable: the entry of the line is replaced, and what stands round it stays.
pub proof fn law_line_refers_to_its_variable(
    line: Seq<char>,
    name: Seq<char>,
    env: Seq<EnvVariableView>,
)
    requires
        starts_with(trim(line), "- "@),
        contains(trim(line), ":"@),
        !is_unnamed(env, ascii_upper(name) + "_PORT"@),
    ensures
        mapping_with_variable(list_entry(line), ascii_upper(name) + "_PORT"@) matches Some(new)
            ==> exists|p: int, q: int|
            #![trigger line.subrange(p, q)]
            0 <= p <= q <= line.len() && line.subrange(p, q) == list_entry(line) && line_in_step(
                line,
                Some(name),
                env,
            ) == line.take(p) + new + line.skip(q),
        mapping_with_variable(list_entry(line), ascii_upper(name) + "_PORT"@) is None
            ==> line_in_step(line, Some(name), env) == line,
{
    let key = ascii_upper(name) + "_PORT"@;
    lemma_index(env, key, 0);
    if mapping_with_variable(list_entry(line), key) is Some {
        let (n, p, q) = lemma_replaced_line(line, Some(name), env);
        assert(line.subrange(p, q) == list_entry(line));
    }
}

/// A line `  name:` starts the definition of a service, and every line behind it belongs to that
/// service up to the next such line.
pub proof fn law_services_of_a_compose_file(
    name: Seq<char>,
    tail: Seq<char>,
    before: Option<Seq<char>>,
    line: Seq<char>,
)
    requires
        name.len() > 0,
        !is_space(name[0]),
        name[0] != '-',
        name.last() != ':',
        name != "services"@,
        forall|k: int| 0 <= k < tail.len() ==> is_space(#[trigger] tail[k]),
    ensures
        service_at(before, "  "@ + name + ":"@ + tail) == Some(name),
        !service_header(line) ==> service_at(before, line) == before,
        starts_with(trim(line), "-"@) ==> !service_header(line),
        !ends_with(trim(line), ":"@) ==> !service_header(line),
{
    reveal_strlit("  ");
    reveal_strlit(":");
    reveal_strlit("-");
    let header = "  "@ + name + ":"@ + tail;
    let body = name + ":"@;
    assert(header =~= "  "@ + (body + tail));
    lemma_leading_spaces("  "@, body + tail);
    assert(!is_space(body.last()));
    lemma_entry("  "@, body, tail);
    lemma_byte_len_concat("  "@, body + tail);
    lemma_two_blanks();
    assert(body.subrange(body.len() - 1, body.len() as int) =~= ":"@);
    if starts_with(body, "-"@) {
        assert(body.subrange(0, 1)[0] == body[0]);
    }
    let set = ":"@;
    assert(set[0] == ':');
    assert(forall|c: char| set.contains(c) ==> c == ':');
    assert(set.contains(body.last()));
    assert(body.drop_last() =~= name);
    assert(trim_end_of(name, set) == name);
    assert(trim_end_of(body, set) == name);
}

proof fn lemma_two_blanks()
    ensures
        byte_len("  "@) == 2,
{
    reveal_strlit("  ");
    let s = "  "@;
    assert(s.drop_last() =~= seq![' ']);
    assert(s.drop_last().drop_last() =~= Seq::<char>::empty());
    reveal_with_fuel(byte_len, 3);
}

} // verus!
