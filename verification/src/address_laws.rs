//! How the addresses in the variables of an instance follow the ports of its services.
use vstd::prelude::*;

use crate::command_laws::lemma_only_place_is_replaced;
use crate::env::EnvVariableView;
use crate::number::{decimal, lemma_decimal_value};
use crate::port_laws::{
    has_colon, holds_local_port, lemma_colon_is_no_port, lemma_named_port_with_colon,
    lemma_port_run,
};
use crate::ports::{
    follow_changes, local_url, longest_named, moved_count, plain_ports, port_run, port_value,
    resolved_conflicts, with_moved_port, with_named_port, PortChangeView,
};
use crate::replace_laws::lemma_replaced_on_both_sides;
use crate::search::{at, contains, find, lemma_find, starts_with, trim_end_all};
use crate::split::replace_all;
use crate::text::{ascii_upper, byte_len, is_digit};
use crate::urls::{is_behind_authority, is_host, law_only_the_port_changes};

verus! {

// ---------------------------------------------------------------------------------------------
// Addresses
// ---------------------------------------------------------------------------------------------
/// A name of this machine.
pub open spec fn is_this_machine(host: Seq<char>) -> bool {
    host == "127.0.0.1"@ || host == "localhost"@ || host == "0.0.0.0"@ || host == "[::1]"@
}

/// The address of a port: a scheme, a host, the port, and what follows it.
pub open spec fn address(scheme: Seq<char>, host: Seq<char>, port: nat, rest: Seq<char>) -> Seq<
    char,
> {
    scheme + "://"@ + host + ":"@ + decimal(port) + rest
}

/// The parts of an address on this machine, of whatever scheme. What follows the port holds no other
/// address.
pub open spec fn is_local_address(scheme: Seq<char>, host: Seq<char>, rest: Seq<char>) -> bool {
    &&& forall|k: int| 0 <= k < scheme.len() ==> #[trigger] scheme[k] != ':'
    &&& is_this_machine(host)
    &&& is_behind_authority(rest)
    &&& forall|k: int| 0 <= k < rest.len() ==> #[trigger] rest[k] != ':'
}

/// One number starts with the digits of another.
pub open spec fn starts_with_digits(number: nat, start: nat) -> bool {
    decimal(start).is_prefix_of(decimal(number))
}

/// The only place of a host with a port in an address is that of its own host, where its own port
/// starts with those digits.
proof fn lemma_place_in_address(
    scheme: Seq<char>,
    host: Seq<char>,
    port: nat,
    rest: Seq<char>,
    other: Seq<char>,
    number: nat,
    j: int,
)
    requires
        is_local_address(scheme, host, rest),
        is_this_machine(other),
        at(address(scheme, host, port, rest), other + (":"@ + decimal(number)), j),
    ensures
        other == host,
        j == scheme.len() + 3,
        starts_with_digits(port, number),
{
    reveal_strlit("127.0.0.1");
    reveal_strlit("localhost");
    reveal_strlit("0.0.0.0");
    reveal_strlit("[::1]");
    reveal_strlit("://");
    reveal_strlit(":");
    lemma_decimal_value(port);
    lemma_decimal_value(number);
    let v = address(scheme, host, port, rest);
    let digits = decimal(port);
    let wanted = decimal(number);
    let pat = other + (":"@ + wanted);
    let found = v.subrange(j, j + pat.len());
    assert(found == pat);
    let c = j + other.len();
    let n = scheme.len() as int + 3 + host.len();
    assert(v[c] == found[other.len() as int]);
    assert(v[c] == ':');
    assert(v[c + 1] == found[other.len() as int + 1]);
    assert(v[c + 1] == wanted[0]);
    assert(is_digit(wanted[0]));
    assert(v[c - 1] == found[other.len() - 1]);
    assert(v[c - 1] == other.last());
    if c < scheme.len() {
        assert(v[c] == scheme[c]);
    } else if c == scheme.len() {
        assert(v[c + 1] == '/');
    } else if c < scheme.len() + 3 {
        assert(v[c] == '/');
    } else if c < n {
        let h = c - scheme.len() - 3;
        assert(v[c] == host[h]);
        assert(host == "[::1]"@);
        if h == 1 {
            assert(v[c + 1] == host[2]);
        } else {
            assert(h == 2);
            assert(v[c - 1] == host[1]);
        }
    } else if c > n && c <= n + digits.len() {
        assert(v[c] == digits[c - n - 1]);
        assert(is_digit(digits[c - n - 1]));
    } else if c > n {
        assert(v[c] == rest[c - n - 1 - digits.len()]);
    }
    assert(c == n);
    assert(v[c - 1] == host.last());
    assert(other == host);
    if wanted.len() > digits.len() {
        let t = digits.len() as int;
        assert(found[other.len() + 1 + t] == wanted[t]);
        assert(v[c + 1 + t] == wanted[t]);
        assert(is_digit(wanted[t]));
        assert(v[c + 1 + t] == rest[0]);
    }
    assert(digits.subrange(0, wanted.len() as int) =~= wanted) by {
        assert forall|t: int| 0 <= t < wanted.len() implies digits[t] == wanted[t] by {
            assert(found[other.len() + 1 + t] == wanted[t]);
            assert(v[c + 1 + t] == digits[t]);
        }
    }
}

/// Replacing a port behind one host in an address.
proof fn lemma_replaced_in_address(
    scheme: Seq<char>,
    host: Seq<char>,
    port: nat,
    rest: Seq<char>,
    other: Seq<char>,
    old: nat,
    new: nat,
)
    requires
        is_local_address(scheme, host, rest),
        is_this_machine(other),
    ensures
        ({
            let v = address(scheme, host, port, rest);
            let out = replace_all(
                v,
                other + (":"@ + decimal(old)),
                other + (":"@ + decimal(new)),
            );
            &&& other != host || !starts_with_digits(port, old) ==> out == v
            &&& other == host && old == port ==> out == address(scheme, host, new, rest)
        }),
{
    reveal_strlit("://");
    reveal_strlit(":");
    let v = address(scheme, host, port, rest);
    let from = other + (":"@ + decimal(old));
    let to = other + (":"@ + decimal(new));
    lemma_find(v, from);
    if other != host || !starts_with_digits(port, old) {
        if find(v, from) is Some {
            lemma_place_in_address(scheme, host, port, rest, other, old, find(v, from)->0);
        }
    } else if old == port {
        let s = scheme.len() as int + 3;
        assert(v.subrange(s, s + from.len()) =~= from);
        assert forall|j: int| #[trigger] at(v, from, j) <==> j == s by {
            if at(v, from, j) {
                lemma_place_in_address(scheme, host, port, rest, other, old, j);
            }
        }
        lemma_only_place_is_replaced(v, from, to, s);
        assert(v.take(s) + to + v.skip(s + from.len()) =~= address(scheme, host, new, rest));
    }
}

/// An address on this machine follows a port that moved, and stays where another one moved.
proof fn lemma_address_moves(
    scheme: Seq<char>,
    host: Seq<char>,
    port: nat,
    rest: Seq<char>,
    old: u16,
    new: u16,
)
    requires
        is_local_address(scheme, host, rest),
    ensures
        !starts_with_digits(port, old as nat) ==> with_moved_port(
            address(scheme, host, port, rest),
            old,
            new,
        ) == address(scheme, host, port, rest),
        old == port ==> with_moved_port(address(scheme, host, port, rest), old, new) == address(
            scheme,
            host,
            new as nat,
            rest,
        ),
{
    reveal_strlit("127.0.0.1");
    reveal_strlit("localhost");
    reveal_strlit("0.0.0.0");
    reveal_strlit("[::1]");
    let o = old as nat;
    let n = new as nat;
    let hosts = seq!["127.0.0.1"@, "localhost"@, "0.0.0.0"@, "[::1]"@];
    assert("127.0.0.1"@[0] == '1' && "localhost"@[0] == 'l' && "0.0.0.0"@[0] == '0' && "[::1]"@[0]
        == '[');
    assert forall|k: int, m: nat| 0 <= k < 4 && (m == port || m == n) implies ({
        let v = #[trigger] address(scheme, host, m, rest);
        let h = #[trigger] hosts[k];
        let out = replace_all(v, h + (":"@ + decimal(o)), h + (":"@ + decimal(n)));
        &&& h != host || !starts_with_digits(m, o) ==> out == v
        &&& h == host && o == m ==> out == address(scheme, host, n, rest)
    }) by {
        lemma_replaced_in_address(scheme, host, m, rest, hosts[k], o, n);
    }
    assert(hosts[0] == "127.0.0.1"@ && hosts[1] == "localhost"@ && hosts[2] == "0.0.0.0"@
        && hosts[3] == "[::1]"@);
    let a = address(scheme, host, port, rest);
    let b = address(scheme, host, n, rest);
}

// ---------------------------------------------------------------------------------------------
// Following the changes
// ---------------------------------------------------------------------------------------------
/// No change but the one at `k` touches an address that has this port.
pub open spec fn others_leave(changes: Seq<PortChangeView>, k: int, port: nat) -> bool {
    forall|m: int|
        0 <= m < changes.len() && m != k ==> !starts_with_digits(
            port,
            (#[trigger] changes[m]).old_port as nat,
        )
}

proof fn lemma_moved_once(changes: Seq<PortChangeView>, k: int, n: nat)
    requires
        0 <= k < changes.len(),
        n <= changes.len(),
        others_leave(changes, k, changes[k].old_port as nat),
    ensures
        moved_count(changes.take(n as int), changes[k].old_port) == (if k < n {
            1nat
        } else {
            0nat
        }),
    decreases n,
{
    let first = changes.take(n as int);
    if n > 0 {
        lemma_moved_once(changes, k, (n - 1) as nat);
        assert(first.drop_last() =~= changes.take(n - 1));
        assert(first.last() == changes[n - 1]);
        if n - 1 != k && changes[n - 1].old_port == changes[k].old_port {
            let d = decimal(changes[k].old_port as nat);
            assert(d.subrange(0, d.len() as int) =~= d);
        }
    }
}

/// What following the first `n` changes makes of an address.
proof fn lemma_followed_address(
    entry: EnvVariableView,
    changes: Seq<PortChangeView>,
    k: int,
    scheme: Seq<char>,
    host: Seq<char>,
    rest: Seq<char>,
    n: nat,
)
    requires
        is_local_address(scheme, host, rest),
        contains(ascii_upper(entry.key), "URL"@),
        0 <= k < changes.len(),
        n <= changes.len(),
        entry.value == address(scheme, host, changes[k].old_port as nat, rest),
        others_leave(changes, k, changes[k].old_port as nat),
        others_leave(changes, k, changes[k].new_port as nat),
    ensures
        follow_changes(entry, changes, n).key == entry.key,
        follow_changes(entry, changes, n).value == address(
            scheme,
            host,
            if k < n {
                changes[k].new_port as nat
            } else {
                changes[k].old_port as nat
            },
            rest,
        ),
        follow_changes(entry, changes, n).modified == (entry.modified || follow_changes(
            entry,
            changes,
            n,
        ).value != entry.value),
    decreases n,
{
    if n > 0 {
        lemma_followed_address(entry, changes, k, scheme, host, rest, (n - 1) as nat);
        let change = changes[n - 1];
        let port = if k < n - 1 {
            changes[k].new_port as nat
        } else {
            changes[k].old_port as nat
        };
        lemma_address_moves(scheme, host, port, rest, change.old_port, change.new_port);
        if n - 1 == k {
            lemma_moved_once(changes, k, changes.len());
            assert(changes.take(changes.len() as int) =~= changes);
        }
    }
}

/// An address that no change touches stays.
proof fn lemma_untouched_address(
    entry: EnvVariableView,
    changes: Seq<PortChangeView>,
    scheme: Seq<char>,
    host: Seq<char>,
    port: nat,
    rest: Seq<char>,
    n: nat,
)
    requires
        is_local_address(scheme, host, rest),
        n <= changes.len(),
        entry.value == address(scheme, host, port, rest),
        others_leave(changes, -1, port),
    ensures
        follow_changes(entry, changes, n) == entry,
    decreases n,
{
    if n > 0 {
        lemma_untouched_address(entry, changes, scheme, host, port, rest, (n - 1) as nat);
        let change = changes[n - 1];
        lemma_address_moves(scheme, host, port, rest, change.old_port, change.new_port);
    }
}

// ---------------------------------------------------------------------------------------------
// The port that a name calls for
// ---------------------------------------------------------------------------------------------
/// The variable holds the port of a local service whose name stands in `key`.
pub open spec fn is_called_for(entry: EnvVariableView, key: Seq<char>) -> bool {
    holds_local_port(entry) && contains(key, trim_end_all(entry.key, "_PORT"@))
}

proof fn lemma_none_called_for(entries: Seq<EnvVariableView>, key: Seq<char>)
    requires
        forall|j: int| 0 <= j < entries.len() ==> !is_called_for(#[trigger] entries[j], key),
    ensures
        longest_named(plain_ports(entries), key) is None,
    decreases entries.len(),
{
    if entries.len() > 0 {
        let rest = entries.drop_last();
        assert forall|j: int| 0 <= j < rest.len() implies !is_called_for(
            #[trigger] rest[j],
            key,
        ) by {
            assert(rest[j] == entries[j]);
        }
        lemma_none_called_for(rest, key);
        let last = entries[entries.len() - 1];
        assert(!is_called_for(last, key));
        if holds_local_port(last) {
            assert(plain_ports(entries).drop_last() =~= plain_ports(rest));
        }
    }
}

proof fn lemma_called_for_is_there(entries: Seq<EnvVariableView>, key: Seq<char>) -> (m: int)
    requires
        longest_named(plain_ports(entries), key) is Some,
    ensures
        0 <= m < entries.len(),
        is_called_for(entries[m], key),
        longest_named(plain_ports(entries), key) == Some(
            (trim_end_all(entries[m].key, "_PORT"@), port_value(entries[m].value)->0 as u16),
        ),
    decreases entries.len(),
{
    let rest = entries.drop_last();
    let last = entries.last();
    let ports = plain_ports(entries);
    if holds_local_port(last) {
        assert(ports.drop_last() =~= plain_ports(rest));
        if longest_named(ports, key) == longest_named(plain_ports(rest), key) && longest_named(
            plain_ports(rest),
            key,
        ) is Some {
            let m = lemma_called_for_is_there(rest, key);
            m
        } else {
            entries.len() - 1
        }
    } else {
        let m = lemma_called_for_is_there(rest, key);
        m
    }
}

/// No other variable that is called for has a longer name; of equally long ones this is the last.
pub open spec fn is_called_for_most(
    entries: Seq<EnvVariableView>,
    key: Seq<char>,
    j: int,
) -> bool {
    &&& 0 <= j < entries.len()
    &&& is_called_for(entries[j], key)
    &&& forall|m: int|
        0 <= m < entries.len() && is_called_for(#[trigger] entries[m], key) ==> {
            let one = byte_len(trim_end_all(entries[m].key, "_PORT"@));
            let other = byte_len(trim_end_all(entries[j].key, "_PORT"@));
            one < other || one == other && m <= j
        }
}

proof fn lemma_called_for_most(entries: Seq<EnvVariableView>, key: Seq<char>, j: int)
    requires
        is_called_for_most(entries, key, j),
    ensures
        longest_named(plain_ports(entries), key) == Some(
            (trim_end_all(entries[j].key, "_PORT"@), port_value(entries[j].value)->0 as u16),
        ),
    decreases entries.len(),
{
    let rest = entries.drop_last();
    let last = entries[entries.len() - 1];
    let ports = plain_ports(entries);
    assert(entries.last() == last);
    if holds_local_port(last) {
        assert(ports.drop_last() =~= plain_ports(rest));
    }
    if j == entries.len() - 1 {
        if longest_named(plain_ports(rest), key) is Some {
            let m = lemma_called_for_is_there(rest, key);
            assert(rest[m] == entries[m]);
            assert(is_called_for(entries[m], key));
        }
    } else {
        assert(rest[j] == entries[j]);
        assert forall|m: int| 0 <= m < rest.len() && is_called_for(#[trigger] rest[m], key) implies {
            let one = byte_len(trim_end_all(rest[m].key, "_PORT"@));
            let other = byte_len(trim_end_all(rest[j].key, "_PORT"@));
            one < other || one == other && m <= j
        } by {
            assert(rest[m] == entries[m]);
        }
        lemma_called_for_most(rest, key, j);
        if is_called_for(last, key) {
            assert(is_called_for(entries[entries.len() - 1], key));
        }
    }
}

proof fn lemma_address_is_local_url(
    scheme: Seq<char>,
    host: Seq<char>,
    port: nat,
    rest: Seq<char>,
)
    requires
        is_local_address(scheme, host, rest),
    ensures
        local_url(address(scheme, host, port, rest)) <==> scheme == "http"@ || scheme == "https"@,
        has_colon(address(scheme, host, port, rest)),
{
    reveal_strlit("127.0.0.1");
    reveal_strlit("localhost");
    reveal_strlit("0.0.0.0");
    reveal_strlit("[::1]");
    reveal_strlit("http");
    reveal_strlit("https");
    reveal_strlit("://");
    reveal_strlit("http://127.0.0.1");
    reveal_strlit("https://127.0.0.1");
    reveal_strlit("http://localhost");
    reveal_strlit("https://localhost");
    reveal_strlit("http://0.0.0.0");
    reveal_strlit("https://0.0.0.0");
    reveal_strlit("http://[::1]");
    reveal_strlit("https://[::1]");
    let v = address(scheme, host, port, rest);
    let start = scheme + "://"@ + host;
    assert(v[scheme.len() as int] == ':');
    assert(v.subrange(0, scheme.len() as int) =~= scheme);
    assert(v.subrange(0, start.len() as int) =~= start);
    assert("http"@ + "://"@ + "127.0.0.1"@ =~= "http://127.0.0.1"@);
    assert("https"@ + "://"@ + "127.0.0.1"@ =~= "https://127.0.0.1"@);
    assert("http"@ + "://"@ + "localhost"@ =~= "http://localhost"@);
    assert("https"@ + "://"@ + "localhost"@ =~= "https://localhost"@);
    assert("http"@ + "://"@ + "0.0.0.0"@ =~= "http://0.0.0.0"@);
    assert("https"@ + "://"@ + "0.0.0.0"@ =~= "https://0.0.0.0"@);
    assert("http"@ + "://"@ + "[::1]"@ =~= "http://[::1]"@);
    assert("https"@ + "://"@ + "[::1]"@ =~= "https://[::1]"@);
    assert(starts_with(v, start));
    if local_url(v) {
        assert(v.subrange(0, 7) =~= "http"@ + "://"@ || v.subrange(0, 8) =~= "https"@ + "://"@) by {
            lemma_start_of(v, "http://127.0.0.1"@, 7);
            lemma_start_of(v, "https://127.0.0.1"@, 8);
            lemma_start_of(v, "http://localhost"@, 7);
            lemma_start_of(v, "https://localhost"@, 8);
            lemma_start_of(v, "http://0.0.0.0"@, 7);
            lemma_start_of(v, "https://0.0.0.0"@, 8);
            lemma_start_of(v, "http://[::1]"@, 7);
            lemma_start_of(v, "https://[::1]"@, 8);
            assert("http://127.0.0.1"@.subrange(0, 7) =~= "http"@ + "://"@);
            assert("https://127.0.0.1"@.subrange(0, 8) =~= "https"@ + "://"@);
            assert("http://localhost"@.subrange(0, 7) =~= "http"@ + "://"@);
            assert("https://localhost"@.subrange(0, 8) =~= "https"@ + "://"@);
            assert("http://0.0.0.0"@.subrange(0, 7) =~= "http"@ + "://"@);
            assert("https://0.0.0.0"@.subrange(0, 8) =~= "https"@ + "://"@);
            assert("http://[::1]"@.subrange(0, 7) =~= "http"@ + "://"@);
            assert("https://[::1]"@.subrange(0, 8) =~= "https"@ + "://"@);
        }
        if v.subrange(0, 7) =~= "http"@ + "://"@ {
            assert(v[4] == v.subrange(0, 7)[4]);
            assert forall|k: int| 0 <= k < 4 implies v[k] != ':' by {
                assert(v[k] == v.subrange(0, 7)[k]);
            }
            lemma_first_colon(scheme, v, 4);
            assert(scheme =~= v.subrange(0, 7).subrange(0, 4));
            assert(v.subrange(0, 7).subrange(0, 4) =~= "http"@);
        } else {
            assert(v[5] == v.subrange(0, 8)[5]);
            assert forall|k: int| 0 <= k < 5 implies v[k] != ':' by {
                assert(v[k] == v.subrange(0, 8)[k]);
            }
            lemma_first_colon(scheme, v, 5);
            assert(scheme =~= v.subrange(0, 8).subrange(0, 5));
            assert(v.subrange(0, 8).subrange(0, 5) =~= "https"@);
        }
    }
}

/// A text that starts with another starts with the start of it.
proof fn lemma_start_of(s: Seq<char>, pat: Seq<char>, n: int)
    requires
        0 <= n <= pat.len(),
    ensures
        starts_with(s, pat) ==> s.len() >= n && s.subrange(0, n) == pat.subrange(0, n),
{
    if starts_with(s, pat) {
        assert(s.subrange(0, n) =~= s.subrange(0, pat.len() as int).subrange(0, n));
    }
}

/// The scheme ends at the first colon.
proof fn lemma_first_colon(scheme: Seq<char>, v: Seq<char>, n: int)
    requires
        0 <= n < v.len(),
        v[n] == ':',
        forall|k: int| 0 <= k < n ==> v[k] != ':',
        forall|k: int| 0 <= k < scheme.len() ==> #[trigger] scheme[k] != ':',
        scheme.len() < v.len(),
        v[scheme.len() as int] == ':',
        v.subrange(0, scheme.len() as int) == scheme,
    ensures
        scheme.len() == n,
{
    if n < scheme.len() {
        assert(v.subrange(0, scheme.len() as int)[n] == v[n]);
    }
}

/// An address on this machine of the scheme `http` or `https`, in a variable whose name holds `URL`,
/// takes the port that its name calls for, and stays where it calls for none, as one of another
/// scheme does. Nothing but the port changes.
pub proof fn law_address_takes_the_named_port(
    entry: EnvVariableView,
    entries: Seq<EnvVariableView>,
    scheme: Seq<char>,
    host: Seq<char>,
    port: nat,
    rest: Seq<char>,
    j: int,
)
    requires
        is_local_address(scheme, host, rest),
        contains(ascii_upper(entry.key), "URL"@),
        entry.value == address(scheme, host, port, rest),
    ensures
        ({
            let key = ascii_upper(entry.key);
            let out = with_named_port(entry, plain_ports(entries));
            &&& scheme != "http"@ && scheme != "https"@ ==> out == entry
            &&& (forall|m: int| 0 <= m < entries.len() ==> !is_called_for(#[trigger] entries[m], key))
                ==> out == entry
            &&& (scheme == "http"@ || scheme == "https"@) && is_called_for_most(
                entries,
                key,
                j,
            ) ==> out.value == address(
                scheme,
                host,
                port_value(entries[j].value)->0,
                rest,
            ) && out.modified == (entry.modified || out.value != entry.value) && out.key
                == entry.key
        }),
{
    let key = ascii_upper(entry.key);
    lemma_address_is_local_url(scheme, host, port, rest);
    if forall|m: int| 0 <= m < entries.len() ==> !is_called_for(#[trigger] entries[m], key) {
        lemma_none_called_for(entries, key);
    }
    if is_called_for_most(entries, key, j) {
        lemma_called_for_most(entries, key, j);
        let new = port_value(entries[j].value)->0;
        reveal_strlit("127.0.0.1");
        reveal_strlit("localhost");
        reveal_strlit("0.0.0.0");
        reveal_strlit("[::1]");
        reveal_strlit("http");
        reveal_strlit("https");
        lemma_decimal_value(port);
        assert(is_host(host));
        assert forall|k: int| 0 <= k < decimal(port).len() implies #[trigger] decimal(port)[k]
            != ':' && decimal(port)[k] != '/' && decimal(port)[k] != '?' && decimal(port)[k] != '#'
            && decimal(port)[k] != ']' by {
            assert(is_digit(decimal(port)[k]));
        }
        law_only_the_port_changes(scheme, host, decimal(port), rest, new);
    }
}

/// Once conflicts are resolved, an address on this machine in a variable whose name holds `URL` does
/// not point at a port that a service had to leave: where one change moved that port, it points at
/// the new one, whatever the variable is called, unless its name calls for the port of another
/// service. An address whose port did not move stays, unless its name calls for a port.
pub proof fn law_addresses_follow_their_ports(
    entries: Seq<EnvVariableView>,
    free: Seq<u16>,
    spare: Seq<u16>,
    i: int,
    scheme: Seq<char>,
    host: Seq<char>,
    port: u16,
    rest: Seq<char>,
    k: int,
    j: int,
)
    requires
        resolved_conflicts(entries, free, spare) is Some,
        is_local_address(scheme, host, rest),
        0 <= i < entries.len(),
        contains(ascii_upper(entries[i].key), "URL"@),
        entries[i].value == address(scheme, host, port as nat, rest),
    ensures
        ({
            let (out, changes) = resolved_conflicts(entries, free, spare)->0;
            let key = ascii_upper(entries[i].key);
            let moved = 0 <= k < changes.len() && changes[k].old_port == port && others_leave(
                changes,
                k,
                port as nat,
            ) && others_leave(changes, k, changes[k].new_port as nat);
            let still = others_leave(changes, -1, port as nat);
            let unnamed = scheme != "http"@ && scheme != "https"@ || forall|m: int|
                0 <= m < out.len() ==> !is_called_for(#[trigger] out[m], key);
            &&& moved && unnamed ==> out[i].value == address(
                scheme,
                host,
                changes[k].new_port as nat,
                rest,
            ) && (changes[k].new_port != port ==> out[i].modified)
            &&& still && unnamed ==> out[i] == entries[i]
            &&& (moved || still) && (scheme == "http"@ || scheme == "https"@)
                && is_called_for_most(out, key, j) ==> out[i].value == address(
                scheme,
                host,
                port_value(out[j].value)->0,
                rest,
            )
        }),
{
    let run = port_run(entries, free, spare)->0;
    let changes = run.changes;
    lemma_port_run(entries, free, spare);
    let followed = run.entries.map_values(
        |e: EnvVariableView| follow_changes(e, changes, changes.len()),
    );
    let ports = plain_ports(followed);
    let out = followed.map_values(|e: EnvVariableView| with_named_port(e, ports));
    let key = ascii_upper(entries[i].key);
    lemma_address_is_local_url(scheme, host, port as nat, rest);
    lemma_colon_is_no_port(entries[i].value);
    assert(run.entries[i] == entries[i]);
    assert forall|m: int| 0 <= m < out.len() implies #[trigger] is_called_for(out[m], key)
        == is_called_for(followed[m], key) && out[m].key == followed[m].key && (is_called_for(
        out[m],
        key,
    ) ==> out[m].value == followed[m].value) by {
        lemma_named_port_with_colon(followed[m], ports);
        if has_colon(followed[m].value) && has_colon(out[m].value) {
            lemma_colon_is_no_port(followed[m].value);
            lemma_colon_is_no_port(out[m].value);
        }
    }
    assert((forall|m: int| 0 <= m < out.len() ==> !is_called_for(#[trigger] out[m], key))
        ==> forall|m: int| 0 <= m < followed.len() ==> !is_called_for(#[trigger] followed[m], key))
        by {
        if forall|m: int| 0 <= m < out.len() ==> !is_called_for(#[trigger] out[m], key) {
            assert forall|m: int| 0 <= m < followed.len() implies !is_called_for(
                #[trigger] followed[m],
                key,
            ) by {
                assert(!is_called_for(out[m], key));
            }
        }
    }
    if is_called_for_most(out, key, j) {
        assert(is_called_for(out[j], key));
        assert forall|m: int|
            0 <= m < followed.len() && is_called_for(#[trigger] followed[m], key) implies {
            let one = byte_len(trim_end_all(followed[m].key, "_PORT"@));
            let other = byte_len(trim_end_all(followed[j].key, "_PORT"@));
            one < other || one == other && m <= j
        } by {
            assert(is_called_for(out[m], key));
        }
        assert(is_called_for_most(followed, key, j));
    }
    let moved = 0 <= k < changes.len() && changes[k].old_port == port && others_leave(
        changes,
        k,
        port as nat,
    ) && others_leave(changes, k, changes[k].new_port as nat);
    if moved {
        lemma_followed_address(entries[i], changes, k, scheme, host, rest, changes.len());
        law_address_takes_the_named_port(
            followed[i],
            followed,
            scheme,
            host,
            changes[k].new_port as nat,
            rest,
            j,
        );
        if changes[k].new_port != port {
            let old_value = address(scheme, host, port as nat, rest);
            let new_value = address(scheme, host, changes[k].new_port as nat, rest);
            lemma_ports_show(scheme, host, port as nat, changes[k].new_port as nat, rest);
        }
    }
    if others_leave(changes, -1, port as nat) {
        lemma_untouched_address(
            entries[i],
            changes,
            scheme,
            host,
            port as nat,
            rest,
            changes.len(),
        );
        law_address_takes_the_named_port(
            followed[i],
            followed,
            scheme,
            host,
            port as nat,
            rest,
            j,
        );
    }
}

/// Addresses of different ports differ.
proof fn lemma_ports_show(scheme: Seq<char>, host: Seq<char>, one: nat, other: nat, rest: Seq<char>)
    requires
        one != other,
    ensures
        address(scheme, host, one, rest) != address(scheme, host, other, rest),
{
    let a = address(scheme, host, one, rest);
    let b = address(scheme, host, other, rest);
    if a == b {
        let start = scheme + "://"@ + host + ":"@;
        let n = start.len() as int;
        lemma_decimal_value(one);
        lemma_decimal_value(other);
        assert(a.len() == n + decimal(one).len() + rest.len());
        assert(b.len() == n + decimal(other).len() + rest.len());
        assert(a.subrange(n, n + decimal(one).len()) =~= decimal(one));
        assert(b.subrange(n, n + decimal(other).len()) =~= decimal(other));
    }
}

/// A list of addresses follows a port that moved item by item, whatever stands between them.
pub proof fn law_lists_of_addresses_follow(
    one: Seq<char>,
    other: Seq<char>,
    between: char,
    old: u16,
    new: u16,
)
    requires
        between == ',' || between == ';' || between == ' ' || between == '|' || between == '\n',
    ensures
        with_moved_port(one + seq![between] + other, old, new) == with_moved_port(one, old, new)
            + seq![between] + with_moved_port(other, old, new),
{
    reveal_strlit("127.0.0.1");
    reveal_strlit("localhost");
    reveal_strlit("0.0.0.0");
    reveal_strlit("[::1]");
    reveal_strlit(":");
    lemma_decimal_value(old as nat);
    let from = ":"@ + decimal(old as nat);
    let to = ":"@ + decimal(new as nat);
    assert forall|k: int| 0 <= k < from.len() implies from[k] != between by {
        if k > 0 {
            assert(from[k] == decimal(old as nat)[k - 1]);
            assert(is_digit(decimal(old as nat)[k - 1]));
        }
    }
    let a1 = replace_all(one, "127.0.0.1"@ + from, "127.0.0.1"@ + to);
    let b1 = replace_all(other, "127.0.0.1"@ + from, "127.0.0.1"@ + to);
    lemma_not_held("127.0.0.1"@, from, between);
    lemma_replaced_on_both_sides(
        one,
        between,
        other,
        "127.0.0.1"@ + from,
        "127.0.0.1"@ + to,
    );
    let a2 = replace_all(a1, "localhost"@ + from, "localhost"@ + to);
    let b2 = replace_all(b1, "localhost"@ + from, "localhost"@ + to);
    lemma_not_held("localhost"@, from, between);
    lemma_replaced_on_both_sides(a1, between, b1, "localhost"@ + from, "localhost"@ + to);
    let a3 = replace_all(a2, "0.0.0.0"@ + from, "0.0.0.0"@ + to);
    let b3 = replace_all(b2, "0.0.0.0"@ + from, "0.0.0.0"@ + to);
    lemma_not_held("0.0.0.0"@, from, between);
    lemma_replaced_on_both_sides(a2, between, b2, "0.0.0.0"@ + from, "0.0.0.0"@ + to);
    lemma_not_held("[::1]"@, from, between);
    lemma_replaced_on_both_sides(a3, between, b3, "[::1]"@ + from, "[::1]"@ + to);
}

proof fn lemma_not_held(host: Seq<char>, from: Seq<char>, c: char)
    requires
        forall|k: int| 0 <= k < host.len() ==> host[k] != c,
        forall|k: int| 0 <= k < from.len() ==> from[k] != c,
    ensures
        !(host + from).contains(c),
{
    let s = host + from;
    if s.contains(c) {
        let k = choose|k: int| 0 <= k < s.len() && s[k] == c;
        if k < host.len() {
            assert(s[k] == host[k]);
        } else {
            assert(s[k] == from[k - host.len()]);
        }
    }
}

} // verus!
