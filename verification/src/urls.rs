//! Ports in URLs.
use vstd::prelude::*;
use vstd::string::*;

use crate::number::{
    decimal, decimal_text, lemma_decimal_value, lemma_parse_decimal, parse_u16, parse_unsigned,
};
use crate::search::{
    at, before_first, behind_last, find, find_any, has_prefix, head, last_position, lemma_at_char,
    lemma_find, lemma_find_any_from, lemma_find_any_from_is, lemma_find_from_is, lemma_first_char,
    lemma_last_char, lemma_no_char, lemma_rfind_to, position, position_any, rfind, starts_with,
    tail, text_before_first, text_behind_last,
};
use crate::split::{split, split_once, split_text_once, split_texts};
use crate::text::{is_digit, owned, texts};

verus! {

/// A URL around the place of its port: what stands before the port (scheme and host), and what
/// stands behind it (path, query and fragment).
///
/// There is no such place where the URL has no scheme, its host is empty, or an IPv6 host has no
/// closing bracket.
pub open spec fn around_port(url: Seq<char>) -> Option<(Seq<char>, Seq<char>)> {
    match find(url, "://"@) {
        None => None,
        Some(i) => {
            let start = i + "://"@.len();
            let remainder = url.skip(start);
            let end = match find_any(remainder, "/?#"@) {
                Some(k) => k,
                None => remainder.len() as int,
            };
            let authority = remainder.take(end);
            let host_end = if starts_with(authority, "["@) {
                match find(authority, "]"@) {
                    Some(k) => k + 1,
                    None => 0,
                }
            } else {
                match rfind(authority, ":"@) {
                    Some(k) => k,
                    None => authority.len() as int,
                }
            };
            if host_end == 0 {
                None
            } else {
                Some((url.take(start + host_end), remainder.skip(end)))
            }
        },
    }
}

/// `url` with its port set to `port`.
pub open spec fn url_with_port(url: Seq<char>, port: nat) -> Seq<char> {
    match around_port(url) {
        Some((before, behind)) => before + ":"@ + decimal(port) + behind,
        None => url,
    }
}

/// The port at the end of the authority of a URL: the number behind the last colon between the
/// first `://` and the next `://` or `/`.
pub open spec fn url_port(url: Seq<char>) -> Option<nat> {
    let parts = split(url, "://"@);
    if parts.len() < 2 {
        None
    } else {
        parse_unsigned(behind_last(before_first(parts[1], "/"@), ":"@), 65535)
    }
}

/// The port that the authority of a URL names behind a colon.
pub open spec fn named_port(url: Seq<char>) -> Option<nat> {
    match split_once(url, "://"@) {
        None => None,
        Some((_, rest)) => {
            let authority = before_first(rest, "/"@);
            if rfind(authority, ":"@) is None {
                None
            } else {
                parse_unsigned(behind_last(authority, ":"@), 65535)
            }
        },
    }
}

/// `url` with its port set to `port`.
pub fn replace_url_port(url: &str, port: u16) -> (out: String)
    ensures
        out@ == url_with_port(url@, port as nat),
{
    proof {
        reveal_strlit("://");
        reveal_strlit("[");
        reveal_strlit("]");
        reveal_strlit(":");
    }
    let scheme_end: usize = match position(url, "://") {
        Some(i) => i,
        None => {
            return owned(url);
        },
    };
    let start: usize = scheme_end + 3;
    let remainder: String = tail(url, start);
    let end: usize = match position_any(remainder.as_str(), "/?#") {
        Some(k) => k,
        None => crate::text::chars_of(remainder.as_str()).len(),
    };
    let authority: String = head(remainder.as_str(), end);
    let host_end: usize = if has_prefix(authority.as_str(), "[") {
        match position(authority.as_str(), "]") {
            Some(k) => k + 1,
            None => 0,
        }
    } else {
        match last_position(authority.as_str(), ":") {
            Some(k) => k,
            None => end,
        }
    };
    if host_end == 0 {
        return owned(url);
    }
    let digits: String = decimal_text(port as u64);
    let behind: String = tail(remainder.as_str(), end);
    let host: String = head(authority.as_str(), host_end);
    let mut out: String = head(url, start);
    proof {
        assert(out@ + host@ =~= url@.take(start + host_end));
    }
    out.append(host.as_str());
    out.append(":");
    out.append(digits.as_str());
    out.append(behind.as_str());
    out
}

/// The port at the end of the authority of a URL.
pub fn extract_url_port(url: &str) -> (r: Option<u16>)
    ensures
        match r {
            Some(port) => url_port(url@) == Some(port as nat),
            None => url_port(url@) is None,
        },
{
    proof {
        reveal_strlit("://");
    }
    let parts: Vec<String> = split_texts(url, "://");
    if parts.len() < 2 {
        return None;
    }
    proof {
        assert(texts(parts@)[1] == parts@[1]@);
    }
    let authority: String = text_before_first(parts[1].as_str(), "/");
    let digits: String = text_behind_last(authority.as_str(), ":");
    parse_u16(digits.as_str())
}

/// The port that the authority of a service URL names.
pub fn endpoint_port(url: &str) -> (r: Option<u16>)
    ensures
        match r {
            Some(port) => named_port(url@) == Some(port as nat),
            None => named_port(url@) is None,
        },
{
    match split_text_once(url, "://") {
        Some((_, rest)) => {
            let authority: String = text_before_first(rest.as_str(), "/");
            match last_position(authority.as_str(), ":") {
                Some(_) => {
                    let digits: String = text_behind_last(authority.as_str(), ":");
                    parse_u16(digits.as_str())
                },
                None => None,
            }
        },
        None => None,
    }
}

// ---------------------------------------------------------------------------------------------
// Laws
// ---------------------------------------------------------------------------------------------
/// What is known of the parts of a URL that has a place for a port: `start` is where its authority
/// starts.
spec fn parts_of(url: Seq<char>, start: int, host: Seq<char>, behind: Seq<char>) -> bool {
    &&& 3 <= start <= url.len()
    &&& find(url, "://"@) == Some(start - 3)
    &&& host.len() > 0
    &&& around_port(url) == Some((url.take(start) + host, behind))
    &&& forall|j: int| 0 <= j < host.len() ==> host[j] != '/' && host[j] != '?' && host[j] != '#'
    &&& behind.len() > 0 ==> behind[0] == '/' || behind[0] == '?' || behind[0] == '#'
    &&& host[0] == '[' ==> host.last() == ']' && forall|j: int|
        0 <= j < host.len() - 1 ==> host[j] != ']'
}

proof fn lemma_delimiters()
    ensures
        forall|c: char|
            #![trigger "/?#"@.contains(c)]
            "/?#"@.contains(c) <==> c == '/' || c == '?' || c == '#',
{
    reveal_strlit("/?#");
    let d = "/?#"@;
    assert(d[0] == '/' && d[1] == '?' && d[2] == '#');
}

/// Takes a URL that has a place for a port apart.
proof fn lemma_parts(url: Seq<char>) -> (r: (int, Seq<char>, Seq<char>))
    requires
        around_port(url) is Some,
    ensures
        parts_of(url, r.0, r.1, r.2),
{
    reveal_strlit("://");
    reveal_strlit("[");
    reveal_strlit("]");
    reveal_strlit(":");
    lemma_delimiters();
    lemma_find(url, "://"@);
    let i = find(url, "://"@)->0;
    let start = i + 3;
    let remainder = url.skip(start);
    lemma_find_any_from(remainder, "/?#"@, 0);
    let end = match find_any(remainder, "/?#"@) {
        Some(k) => k,
        None => remainder.len() as int,
    };
    let authority = remainder.take(end);
    assert("["@ =~= seq!['[']);
    assert("]"@ =~= seq![']']);
    assert(":"@ =~= seq![':']);
    assert forall|j: int| 0 <= j < authority.len() implies authority[j] != '/' && authority[j]
        != '?' && authority[j] != '#' by {
        assert(authority[j] == remainder[j]);
        assert(!"/?#"@.contains(remainder[j]));
    }
    lemma_at_char(authority, '[', 0);
    lemma_find(authority, "]"@);
    lemma_rfind_to(authority, ":"@, authority.len() - 1);
    let host_end = if starts_with(authority, "["@) {
        match find(authority, "]"@) {
            Some(k) => k + 1,
            None => 0,
        }
    } else {
        match rfind(authority, ":"@) {
            Some(k) => k,
            None => authority.len() as int,
        }
    };
    if starts_with(authority, "["@) {
        lemma_at_char(authority, ']', host_end - 1);
        assert forall|j: int| 0 <= j < host_end - 1 implies authority[j] != ']' by {
            lemma_at_char(authority, ']', j);
        }
    }
    let host = authority.take(host_end);
    let behind = remainder.skip(end);
    assert(url.take(start) + host =~= url.take(start + host_end));
    if behind.len() > 0 {
        assert(behind[0] == remainder[end]);
    }
    (start, host, behind)
}

/// A URL that is put together from its parts has these parts.
proof fn lemma_put_together(url: Seq<char>, start: int, host: Seq<char>, behind: Seq<char>, port: nat)
    requires
        parts_of(url, start, host, behind),
    ensures
        url_with_port(url, port) == url.take(start) + host + ":"@ + decimal(port) + behind,
        find(url_with_port(url, port), "://"@) == Some(start - 3),
        url_with_port(url, port).skip(start) == host + ":"@ + decimal(port) + behind,
        around_port(url_with_port(url, port)) == Some((url.take(start) + host, behind)),
{
    reveal_strlit("://");
    reveal_strlit("[");
    reveal_strlit("]");
    reveal_strlit(":");
    lemma_delimiters();
    lemma_decimal_value(port);
    let digits = decimal(port);
    let new = url.take(start) + host + ":"@ + digits + behind;
    assert(url_with_port(url, port) =~= new);
    lemma_find(url, "://"@);
    assert(new.subrange(start - 3, start) =~= url.subrange(start - 3, start));
    assert forall|j: int| 0 <= j < start - 3 implies !#[trigger] at(new, "://"@, j) by {
        assert(new.subrange(j, j + 3) =~= url.subrange(j, j + 3));
        assert(!at(url, "://"@, j));
    }
    lemma_find_from_is(new, "://"@, 0, start - 3);
    let remainder = new.skip(start);
    let authority = host + ":"@ + digits;
    assert(remainder =~= authority + behind);
    let end = authority.len() as int;
    assert forall|j: int| 0 <= j < end implies !"/?#"@.contains(#[trigger] remainder[j]) by {
        if j < host.len() {
            assert(remainder[j] == host[j]);
        } else if j > host.len() {
            assert(remainder[j] == digits[j - host.len() - 1]);
            assert(is_digit(digits[j - host.len() - 1]));
        }
    }
    if behind.len() > 0 {
        assert(remainder[end] == behind[0]);
        lemma_find_any_from_is(remainder, "/?#"@, 0, end);
    } else {
        lemma_find_any_from(remainder, "/?#"@, 0);
        assert(find_any(remainder, "/?#"@) is None);
    }
    assert(remainder.take(end) =~= authority);
    assert(remainder.skip(end) =~= behind);
    assert("["@ =~= seq!['[']);
    assert("]"@ =~= seq![']']);
    assert(":"@ =~= seq![':']);
    lemma_at_char(authority, '[', 0);
    assert(authority[0] == host[0]);
    if host[0] == '[' {
        assert forall|j: int| 0 <= j < host.len() - 1 implies authority[j] != ']' by {
            assert(authority[j] == host[j]);
        }
        assert(authority[host.len() - 1] == host.last());
        lemma_first_char(authority, ']', host.len() - 1);
    } else {
        assert(authority[host.len() as int] == ':');
        assert forall|j: int| host.len() < j < authority.len() implies authority[j] != ':' by {
            assert(authority[j] == digits[j - host.len() - 1]);
            assert(is_digit(digits[j - host.len() - 1]));
        }
        lemma_last_char(authority, ':', host.len() as int);
    }
    assert(new.take(start + host.len()) =~= url.take(start) + host);
}

/// A host as it stands in a URL: a name, or an address between brackets.
pub open spec fn is_host(host: Seq<char>) -> bool {
    &&& host.len() > 0
    &&& forall|j: int|
        0 <= j < host.len() ==> #[trigger] host[j] != '/' && host[j] != '?' && host[j] != '#'
    &&& if host[0] == '[' {
        host.last() == ']' && forall|j: int| 0 <= j < host.len() - 1 ==> #[trigger] host[j] != ']'
    } else {
        forall|j: int| 0 <= j < host.len() ==> #[trigger] host[j] != ':'
    }
}

/// What follows the authority of a URL: nothing, or a path, a query or a fragment.
pub open spec fn is_behind_authority(rest: Seq<char>) -> bool {
    rest.len() > 0 ==> rest[0] == '/' || rest[0] == '?' || rest[0] == '#'
}

/// Setting the port of a URL changes nothing else of it: scheme and host stay before it, path, query
/// and fragment behind it, whether the URL named another port or none.
pub proof fn law_only_the_port_changes(
    scheme: Seq<char>,
    host: Seq<char>,
    digits: Seq<char>,
    rest: Seq<char>,
    port: nat,
)
    requires
        forall|j: int| 0 <= j < scheme.len() ==> #[trigger] scheme[j] != ':',
        is_host(host),
        forall|j: int|
            0 <= j < digits.len() ==> #[trigger] digits[j] != ':' && digits[j] != '/' && digits[j]
                != '?' && digits[j] != '#' && digits[j] != ']',
        is_behind_authority(rest),
    ensures
        url_with_port(scheme + "://"@ + host + ":"@ + digits + rest, port) == scheme + "://"@ + host
            + ":"@ + decimal(port) + rest,
        url_with_port(scheme + "://"@ + host + rest, port) == scheme + "://"@ + host + ":"@
            + decimal(port) + rest,
{
    reveal_strlit(":");
    lemma_url_parts(scheme, host, ":"@ + digits, rest);
    lemma_url_parts(scheme, host, Seq::<char>::empty(), rest);
    assert(scheme + "://"@ + host + ":"@ + digits + rest =~= scheme + "://"@ + host + (":"@
        + digits) + rest);
    assert(scheme + "://"@ + host + rest =~= scheme + "://"@ + host + Seq::<char>::empty() + rest);
}

/// The place of the port of a URL that is put together from its parts.
proof fn lemma_url_parts(scheme: Seq<char>, host: Seq<char>, old: Seq<char>, rest: Seq<char>)
    requires
        forall|j: int| 0 <= j < scheme.len() ==> #[trigger] scheme[j] != ':',
        is_host(host),
        old.len() > 0 ==> old[0] == ':',
        forall|j: int|
            0 <= j < old.len() ==> #[trigger] old[j] != '/' && old[j] != '?' && old[j] != '#'
                && old[j] != ']',
        forall|j: int| 1 <= j < old.len() ==> #[trigger] old[j] != ':',
        is_behind_authority(rest),
    ensures
        around_port(scheme + "://"@ + host + old + rest) == Some((scheme + "://"@ + host, rest)),
{
    reveal_strlit("://");
    reveal_strlit("[");
    reveal_strlit("]");
    reveal_strlit(":");
    lemma_delimiters();
    let url = scheme + "://"@ + host + old + rest;
    let s = scheme.len() as int;
    assert(url.subrange(s, s + 3) =~= "://"@);
    assert forall|j: int| 0 <= j < s implies !#[trigger] at(url, "://"@, j) by {
        if at(url, "://"@, j) {
            assert(url.subrange(j, j + 3)[0] == url[j]);
            assert(url[j] == scheme[j]);
        }
    }
    lemma_find_from_is(url, "://"@, 0, s);
    let start = s + 3;
    let remainder = url.skip(start);
    assert(remainder =~= host + old + rest);
    let end = (host.len() + old.len()) as int;
    assert forall|j: int| 0 <= j < end implies !"/?#"@.contains(#[trigger] remainder[j]) by {
        if j < host.len() {
            assert(remainder[j] == host[j]);
        } else {
            assert(remainder[j] == old[j - host.len()]);
        }
    }
    if rest.len() > 0 {
        assert(remainder[end] == rest[0]);
        lemma_find_any_from_is(remainder, "/?#"@, 0, end);
    } else {
        lemma_find_any_from(remainder, "/?#"@, 0);
        assert(find_any(remainder, "/?#"@) is None);
    }
    let authority = remainder.take(end);
    assert(authority =~= host + old);
    assert(remainder.skip(end) =~= rest);
    assert("["@ =~= seq!['[']);
    assert("]"@ =~= seq![']']);
    assert(":"@ =~= seq![':']);
    lemma_at_char(authority, '[', 0);
    assert(authority[0] == host[0]);
    if host[0] == '[' {
        assert forall|j: int| 0 <= j < host.len() - 1 implies authority[j] != ']' by {
            assert(authority[j] == host[j]);
        }
        assert(authority[host.len() - 1] == host.last());
        lemma_first_char(authority, ']', host.len() - 1);
    } else if old.len() > 0 {
        assert(authority[host.len() as int] == old[0]);
        assert forall|j: int| host.len() < j < authority.len() implies authority[j] != ':' by {
            assert(authority[j] == old[j - host.len()]);
        }
        lemma_last_char(authority, ':', host.len() as int);
    } else {
        assert forall|j: int| 0 <= j < authority.len() implies authority[j] != ':' by {
            assert(authority[j] == host[j]);
        }
        lemma_rfind_to(authority, ":"@, authority.len() - 1);
        if rfind(authority, ":"@) is Some {
            lemma_at_char(authority, ':', rfind(authority, ":"@)->0);
        }
    }
    assert(url.take(start + host.len()) =~= scheme + "://"@ + host);
}

/// The port that was set last is the one that a URL has.
pub proof fn law_last_port_stays(url: Seq<char>, first: nat, last: nat)
    ensures
        url_with_port(url_with_port(url, first), last) == url_with_port(url, last),
{
    if around_port(url) is Some {
        let (start, host, behind) = lemma_parts(url);
        lemma_put_together(url, start, host, behind, first);
        lemma_put_together(url, start, host, behind, last);
    }
}

/// A port that is set is read back, from a URL whose authority is followed by a path or by nothing.
pub proof fn law_port_is_read_back(url: Seq<char>, port: nat)
    requires
        port <= 65535,
        around_port(url) matches Some((_, behind)) && (behind.len() == 0 || behind[0] == '/'),
    ensures
        url_port(url_with_port(url, port)) == Some(port),
        named_port(url_with_port(url, port)) == Some(port),
{
    reveal_strlit("://");
    reveal_strlit(":");
    reveal_strlit("/");
    let (start, host, behind) = lemma_parts(url);
    lemma_put_together(url, start, host, behind, port);
    lemma_decimal_value(port);
    lemma_parse_decimal(port, 65535);
    let new = url_with_port(url, port);
    let digits = decimal(port);
    let authority = host + ":"@ + digits;
    let rest = new.skip(start);
    assert("/"@ =~= seq!['/']);
    assert(":"@ =~= seq![':']);
    assert(rest =~= authority + behind);
    assert forall|j: int| 0 <= j < authority.len() implies authority[j] != '/' by {
        if j < host.len() {
            assert(authority[j] == host[j]);
        } else if j > host.len() {
            assert(authority[j] == digits[j - host.len() - 1]);
            assert(is_digit(digits[j - host.len() - 1]));
        }
    }
    assert(authority[host.len() as int] == ':');
    assert forall|j: int| host.len() < j < authority.len() implies authority[j] != ':' by {
        assert(authority[j] == digits[j - host.len() - 1]);
        assert(is_digit(digits[j - host.len() - 1]));
    }
    lemma_last_char(authority, ':', host.len() as int);
    assert(authority.skip(host.len() as int + 1) =~= digits);
    assert(behind_last(authority, ":"@) == digits);
    // The authority ends at the first slash, wherever the text is cut behind it.
    lemma_authority(rest, authority, behind);
    assert(split_once(new, "://"@) == Some((new.take(start - 3), rest)));
    lemma_find(rest, "://"@);
    let parts = split(new, "://"@);
    assert(parts =~= seq![new.take(start - 3)] + split(rest, "://"@));
    match find(rest, "://"@) {
        Some(k) => {
            assert(split(rest, "://"@)[0] == rest.take(k));
            assert(rest.subrange(k, k + 3)[0] == ':');
            assert(rest.subrange(k, k + 3)[1] == '/');
            assert(rest[k] == ':' && rest[k + 1] == '/');
            if k < authority.len() {
                assert(authority[k] == ':');
                assert(k + 1 < authority.len());
                assert(rest[k + 1] == authority[k + 1]);
            }
            if k == authority.len() {
                assert(rest[k] == behind[0]);
            }
            assert(rest.take(k) =~= authority + behind.take(k - authority.len()));
            lemma_authority(rest.take(k), authority, behind.take(k - authority.len()));
        },
        None => {
            assert(split(rest, "://"@)[0] == rest);
        },
    }
}

proof fn lemma_authority(rest: Seq<char>, authority: Seq<char>, behind: Seq<char>)
    requires
        rest == authority + behind,
        forall|j: int| 0 <= j < authority.len() ==> authority[j] != '/',
        behind.len() == 0 || behind[0] == '/',
    ensures
        before_first(rest, "/"@) == authority,
{
    reveal_strlit("/");
    assert("/"@ =~= seq!['/']);
    if behind.len() == 0 {
        assert(rest =~= authority);
        lemma_no_char(rest, '/');
    } else {
        let k = authority.len() as int;
        assert(rest[k] == behind[0]);
        lemma_first_char(rest, '/', k);
        assert(rest.take(k) =~= authority);
    }
}

} // verus!
