//! How the manifest of an instance takes up the ports of its services.
use vstd::prelude::*;

use crate::commands::first_port;
use crate::deploy::{manifest_with_ports, port_key, url_port_or_zero};
use crate::replace_laws::{
    lemma_absent_is_not_replaced, lemma_replaced_on_both_sides, lemma_replacement_is_there,
};
use crate::search::{at, contains};
use crate::split::replace_all;
use crate::text::{ascii_upper, join};
use crate::urls::{url_port, url_with_port};

verus! {

// ---------------------------------------------------------------------------------------------
// The text of a manifest
// ---------------------------------------------------------------------------------------------
/// A service was given a port: the first one under its key.
pub open spec fn was_given(
    service: (Seq<char>, Seq<char>),
    ports: Seq<(Seq<char>, u16)>,
    port: u16,
) -> bool {
    exists|m: int|
        0 <= m < ports.len() && (#[trigger] ports[m]) == (ascii_upper(service.0) + "_PORT"@, port)
            && forall|i: int|
            0 <= i < m ==> (#[trigger] ports[i]).0 != ascii_upper(service.0) + "_PORT"@
}

/// A service has a URL with a port above zero.
pub open spec fn names_port(service: (Seq<char>, Seq<char>)) -> bool {
    url_port(service.1) is Some && url_port(service.1)->0 > 0
}

/// A service has a URL with a port above zero and was given another one.
pub open spec fn has_moved(
    service: (Seq<char>, Seq<char>),
    ports: Seq<(Seq<char>, u16)>,
    port: u16,
) -> bool {
    &&& names_port(service)
    &&& url_port(service.1)->0 != port
    &&& was_given(service, ports, port)
}

/// The URLs of services stand on different lines: a line that holds one holds no other, neither as it
/// is nor once that one has moved, and a URL that has moved is not part of the new one.
pub open spec fn stand_on_different_lines(
    rows: Seq<Seq<char>>,
    services: Seq<(Seq<char>, Seq<char>)>,
    ports: Seq<(Seq<char>, u16)>,
) -> bool {
    forall|r: int, j: int, k: int, q: u16|
        0 <= r < rows.len() && 0 <= j < services.len() && 0 <= k < services.len() && names_port(
            services[j],
        ) && names_port(services[k]) && contains(#[trigger] rows[r], services[k].1) ==> (j != k ==> !contains(rows[r], (#[trigger] services[j]).1)) && (#[trigger] has_moved(
            services[k],
            ports,
            q,
        ) ==> !contains(
            replace_all(rows[r], services[k].1, url_with_port(services[k].1, q as nat)),
            services[j].1,
        ))
}

/// No URL goes over the end of a line.
pub open spec fn urls_have_no_feed(services: Seq<(Seq<char>, Seq<char>)>) -> bool {
    forall|k: int| 0 <= k < services.len() ==> !(#[trigger] services[k]).1.contains('\n')
}

proof fn lemma_first_port(ports: Seq<(Seq<char>, u16)>, key: Seq<char>, m: int, i: int)
    requires
        0 <= i <= m < ports.len(),
        ports[m].0 == key,
        forall|x: int| i <= x < m ==> (#[trigger] ports[x]).0 != key,
    ensures
        first_port(ports, key, i) == Some(ports[m].1),
    decreases m - i,
{
    if i < m {
        lemma_first_port(ports, key, m, i + 1);
    }
}

proof fn lemma_first_port_is_given(
    service: (Seq<char>, Seq<char>),
    ports: Seq<(Seq<char>, u16)>,
    i: int,
)
    requires
        0 <= i,
        first_port(ports, port_key(service.0), i) is Some,
        forall|x: int| 0 <= x < i && x < ports.len() ==> (#[trigger] ports[x]).0 != port_key(
            service.0,
        ),
    ensures
        was_given(service, ports, first_port(ports, port_key(service.0), i)->0),
    decreases ports.len() - i,
{
    if ports[i].0 == port_key(service.0) {
        let port = first_port(ports, port_key(service.0), i)->0;
        assert(ports[i] == (ascii_upper(service.0) + "_PORT"@, port));
    } else {
        lemma_first_port_is_given(service, ports, i + 1);
    }
}

proof fn lemma_given_is_first(
    service: (Seq<char>, Seq<char>),
    ports: Seq<(Seq<char>, u16)>,
    port: u16,
)
    requires
        was_given(service, ports, port),
    ensures
        first_port(ports, port_key(service.0), 0) == Some(port),
{
    let m = choose|m: int|
        0 <= m < ports.len() && (#[trigger] ports[m]) == (ascii_upper(service.0) + "_PORT"@, port)
            && forall|i: int|
            0 <= i < m ==> (#[trigger] ports[i]).0 != ascii_upper(service.0) + "_PORT"@;
    lemma_first_port(ports, port_key(service.0), m, 0);
}

/// Replacing a text in lines replaces it in each of them.
proof fn lemma_replaced_in_lines(rows: Seq<Seq<char>>, from: Seq<char>, to: Seq<char>)
    requires
        from.len() > 0,
        !from.contains('\n'),
    ensures
        replace_all(join(rows, "\n"@), from, to) == join(
            rows.map_values(|r: Seq<char>| replace_all(r, from, to)),
            "\n"@,
        ),
        contains(join(rows, "\n"@), from) <==> exists|r: int|
            0 <= r < rows.len() && contains(#[trigger] rows[r], from),
    decreases rows.len(),
{
    reveal_strlit("\n");
    let f = |r: Seq<char>| replace_all(r, from, to);
    assert("\n"@ =~= seq!['\n']);
    if rows.len() == 0 {
        let s = Seq::<char>::empty();
        assert(join(rows, "\n"@) =~= s);
        if contains(s, from) {
            let j = choose|j: int| at(s, from, j);
            assert(false);
        }
        lemma_absent_is_not_replaced(s, from, to);
        assert(rows.map_values(f) =~= rows);
    } else if rows.len() == 1 {
        assert(rows.map_values(f) =~= seq![f(rows[0])]);
        assert(join(rows, "\n"@) == rows[0]);
        if contains(rows[0], from) {
            assert(contains(rows[0], from));
        }
    } else {
        let rest = rows.drop_last();
        let last = rows.last();
        lemma_replaced_in_lines(rest, from, to);
        lemma_replaced_on_both_sides(join(rest, "\n"@), '\n', last, from, to);
        assert(rows.map_values(f).drop_last() =~= rest.map_values(f));
        assert(rows.map_values(f).last() == f(last));
        assert(contains(join(rows, "\n"@), from) <==> exists|r: int|
            0 <= r < rows.len() && contains(#[trigger] rows[r], from)) by {
            if contains(join(rest, "\n"@), from) {
                let r = choose|r: int| 0 <= r < rest.len() && contains(#[trigger] rest[r], from);
                assert(contains(rows[r], from));
            }
            if contains(last, from) {
                assert(contains(rows[rows.len() - 1], from));
            }
            if exists|r: int| 0 <= r < rows.len() && contains(#[trigger] rows[r], from) {
                let r = choose|r: int| 0 <= r < rows.len() && contains(#[trigger] rows[r], from);
                if r < rows.len() - 1 {
                    assert(contains(rest[r], from));
                }
            }
        }
    }
}

/// A line once the first `n` services have moved: with the new URL of the one that it holds.
spec fn moved_row(
    row: Seq<char>,
    services: Seq<(Seq<char>, Seq<char>)>,
    ports: Seq<(Seq<char>, u16)>,
    n: nat,
) -> Seq<char>
    decreases n,
{
    if n == 0 {
        row
    } else {
        let s = services[n - 1];
        let before = moved_row(row, services, ports, (n - 1) as nat);
        match first_port(ports, port_key(s.0), 0) {
            Some(port) => if url_port_or_zero(s.1) != 0 && port != url_port_or_zero(s.1) {
                replace_all(before, s.1, url_with_port(s.1, port as nat))
            } else {
                before
            },
            None => before,
        }
    }
}

proof fn lemma_url_is_not_empty(url: Seq<char>)
    requires
        url_port_or_zero(url) > 0,
    ensures
        url.len() > 0,
{
    reveal_strlit("://");
    if url.len() == 0 {
        crate::search::lemma_find(url, "://"@);
        assert(crate::search::find(url, "://"@) is None);
        assert(crate::split::split(url, "://"@) =~= seq![url]);
    }
}

proof fn lemma_manifest_by_lines(
    rows: Seq<Seq<char>>,
    services: Seq<(Seq<char>, Seq<char>)>,
    ports: Seq<(Seq<char>, u16)>,
    n: nat,
)
    requires
        n <= services.len(),
        urls_have_no_feed(services),
    ensures
        manifest_with_ports(join(rows, "\n"@), services.take(n as int), ports) == join(
            rows.map_values(|r: Seq<char>| moved_row(r, services, ports, n)),
            "\n"@,
        ),
    decreases n,
{
    let f = |r: Seq<char>| moved_row(r, services, ports, n);
    if n == 0 {
        assert(rows.map_values(f) =~= rows);
    } else {
        let less = (n - 1) as nat;
        let g = |r: Seq<char>| moved_row(r, services, ports, less);
        lemma_manifest_by_lines(rows, services, ports, less);
        let s = services[n - 1];
        assert(services.take(n as int).drop_last() =~= services.take(n - 1));
        assert(services.take(n as int).last() == s);
        let done = rows.map_values(g);
        match first_port(ports, port_key(s.0), 0) {
            Some(port) => {
                if url_port_or_zero(s.1) != 0 && port != url_port_or_zero(s.1) {
                    lemma_url_is_not_empty(s.1);
                    let to = url_with_port(s.1, port as nat);
                    lemma_replaced_in_lines(done, s.1, to);
                    assert(done.map_values(|r: Seq<char>| replace_all(r, s.1, to))
                        =~= rows.map_values(f));
                } else {
                    assert(done =~= rows.map_values(f));
                }
            },
            None => {
                assert(done =~= rows.map_values(f));
            },
        }
    }
}

/// What becomes of one line: the URL of the service that it holds moves, and nothing else does.
proof fn lemma_row_moves(
    rows: Seq<Seq<char>>,
    services: Seq<(Seq<char>, Seq<char>)>,
    ports: Seq<(Seq<char>, u16)>,
    r: int,
    k: int,
    n: nat,
)
    requires
        0 <= r < rows.len(),
        0 <= k < services.len(),
        n <= services.len(),
        stand_on_different_lines(rows, services, ports),
        names_port(services[k]),
        contains(rows[r], services[k].1),
    ensures
        forall|port: u16| #[trigger]
            has_moved(services[k], ports, port) && k < n ==> moved_row(
                rows[r],
                services,
                ports,
                n,
            ) == replace_all(
                rows[r],
                services[k].1,
                url_with_port(services[k].1, port as nat),
            ),
        k >= n || (forall|port: u16| !#[trigger] has_moved(services[k], ports, port)) ==> moved_row(
            rows[r],
            services,
            ports,
            n,
        ) == rows[r],
    decreases n,
{
    if n > 0 {
        let less = (n - 1) as nat;
        lemma_row_moves(rows, services, ports, r, k, less);
        let s = services[n - 1];
        let before = moved_row(rows[r], services, ports, less);
        match first_port(ports, port_key(s.0), 0) {
            Some(port) => {
                lemma_first_port_is_given(s, ports, 0);
                if url_port_or_zero(s.1) != 0 && port != url_port_or_zero(s.1) {
                    assert(has_moved(s, ports, port));
                    if n - 1 != k {
                        assert(!contains(before, s.1)) by {
                            if exists|q: u16| #[trigger] has_moved(services[k], ports, q) && k
                                < less {
                                let q = choose|q: u16| #[trigger]
                                    has_moved(services[k], ports, q) && k < less;
                                assert(contains(rows[r], services[k].1));
                            } else {
                                assert(!has_moved(s, ports, port) || contains(
                                    rows[r],
                                    services[k].1,
                                ));
                                lemma_other_is_absent(rows, services, ports, r, k, n - 1);
                                if k < less {
                                    assert forall|q: u16| !#[trigger] has_moved(
                                        services[k],
                                        ports,
                                        q,
                                    ) by {}
                                }
                            }
                        }
                        lemma_absent_is_not_replaced(
                            before,
                            s.1,
                            url_with_port(s.1, port as nat),
                        );
                    }
                }
            },
            None => {},
        }
        assert forall|port: u16| #[trigger] has_moved(services[k], ports, port) implies first_port(
            ports,
            port_key(services[k].0),
            0,
        ) == Some(port) by {
            lemma_given_is_first(services[k], ports, port);
        }
    }
}

proof fn lemma_other_is_absent(
    rows: Seq<Seq<char>>,
    services: Seq<(Seq<char>, Seq<char>)>,
    ports: Seq<(Seq<char>, u16)>,
    r: int,
    k: int,
    j: int,
)
    requires
        0 <= r < rows.len(),
        0 <= k < services.len(),
        0 <= j < services.len(),
        j != k,
        names_port(services[j]),
        names_port(services[k]),
        stand_on_different_lines(rows, services, ports),
        contains(rows[r], services[k].1),
    ensures
        !contains(rows[r], services[j].1),
{
    let q = 0u16;
    let _ = has_moved(services[k], ports, q);
}

/// Every service that was given a port stands at it in the manifest. Where the URLs of the services
/// stand on different lines, each line that held the URL of a service that moved holds the new one
/// in its place and nothing else of the line changes, the old URL is nowhere any more, and a line
/// that holds the URL of no service, or of one that did not move, stays as it was.
pub proof fn law_every_service_moves_in_the_manifest(
    rows: Seq<Seq<char>>,
    services: Seq<(Seq<char>, Seq<char>)>,
    ports: Seq<(Seq<char>, u16)>,
)
    requires
        urls_have_no_feed(services),
        stand_on_different_lines(rows, services, ports),
    ensures
        ({
            let out = manifest_with_ports(join(rows, "\n"@), services, ports);
            &&& forall|k: int, port: u16|
                0 <= k < services.len() && #[trigger] has_moved(services[k], ports, port)
                    && contains(join(rows, "\n"@), services[k].1) ==> contains(
                    out,
                    url_with_port(services[k].1, port as nat),
                )
            &&& forall|k: int, port: u16|
                0 <= k < services.len() && #[trigger] has_moved(services[k], ports, port)
                    ==> !contains(out, services[k].1)
            &&& exists|done: Seq<Seq<char>>| #[trigger]
                join(done, "\n"@) == out && done.len() == rows.len() && rows_have_moved(
                    rows,
                    done,
                    services,
                    ports,
                )
        }),
{
    let n = services.len();
    let f = |r: Seq<char>| moved_row(r, services, ports, n);
    let done = rows.map_values(f);
    let out = manifest_with_ports(join(rows, "\n"@), services, ports);
    lemma_manifest_by_lines(rows, services, ports, n);
    assert(services.take(n as int) =~= services);
    assert(out == join(done, "\n"@));
    assert forall|r: int, k: int|
        0 <= r < rows.len() && 0 <= k < services.len() && names_port(services[k]) && contains(
            #[trigger] rows[r],
            (#[trigger] services[k]).1,
        ) implies ({
        &&& forall|port: u16| #[trigger]
            has_moved(services[k], ports, port) ==> done[r] == replace_all(
                rows[r],
                services[k].1,
                url_with_port(services[k].1, port as nat),
            )
        &&& (forall|port: u16| !#[trigger] has_moved(services[k], ports, port)) ==> done[r]
            == rows[r]
    }) by {
        lemma_row_moves(rows, services, ports, r, k, n);
    }
    assert forall|r: int|
        0 <= r < rows.len() && (forall|k: int|
            0 <= k < services.len() && names_port(#[trigger] services[k]) ==> !contains(
                rows[r],
                services[k].1,
            )) implies (
    #[trigger] done[r]) == rows[r] by {
        lemma_row_stays(rows[r], services, ports, n);
    }
    assert forall|k: int, port: u16|
        0 <= k < services.len() && #[trigger] has_moved(services[k], ports, port) implies (
    contains(join(rows, "\n"@), services[k].1) ==> contains(
        out,
        url_with_port(services[k].1, port as nat),
    )) && !contains(out, services[k].1) by {
        let url = services[k].1;
        let to = url_with_port(url, port as nat);
        lemma_url_is_not_empty(url);
        assert(!services[k].1.contains('\n'));
        lemma_replaced_in_lines(rows, url, to);
        lemma_replaced_in_lines(done, url, to);
        if contains(join(rows, "\n"@), url) {
            let r = choose|r: int| 0 <= r < rows.len() && contains(#[trigger] rows[r], url);
            lemma_row_moves(rows, services, ports, r, k, n);
            lemma_replacement_is_there(rows[r], url, to);
            assert(contains(done[r], to));
            lemma_part_of_lines(done, r, to);
        }
        if contains(out, url) {
            let r = choose|r: int| 0 <= r < done.len() && contains(#[trigger] done[r], url);
            if exists|m: int|
                0 <= m < services.len() && names_port(#[trigger] services[m]) && contains(
                    rows[r],
                    services[m].1,
                ) {
                let m = choose|m: int|
                    0 <= m < services.len() && names_port(#[trigger] services[m]) && contains(
                        rows[r],
                        services[m].1,
                    );
                lemma_row_moves(rows, services, ports, r, m, n);
                if exists|q: u16| #[trigger] has_moved(services[m], ports, q) {
                    let q = choose|q: u16| #[trigger] has_moved(services[m], ports, q);
                    assert(contains(rows[r], services[m].1));
                    assert(done[r] == replace_all(
                        rows[r],
                        services[m].1,
                        url_with_port(services[m].1, q as nat),
                    ));
                    lemma_moved_is_absent(rows, services, ports, r, m, k, q);
                } else {
                    assert(done[r] == rows[r]);
                    if m != k {
                        lemma_other_is_absent(rows, services, ports, r, m, k);
                    }
                }
            } else {
                lemma_row_stays(rows[r], services, ports, n);
                assert(contains(rows[r], services[k].1));
            }
        }
    }
    assert(rows_have_moved(rows, done, services, ports));
    assert(join(done, "\n"@) == out && done.len() == rows.len());
}

/// Each line with the URL of a service that moved has the new URL, and the others are as they were.
pub open spec fn rows_have_moved(
    rows: Seq<Seq<char>>,
    done: Seq<Seq<char>>,
    services: Seq<(Seq<char>, Seq<char>)>,
    ports: Seq<(Seq<char>, u16)>,
) -> bool {
    &&& forall|r: int, k: int|
        0 <= r < rows.len() && 0 <= k < services.len() && names_port(services[k]) && contains(
            #[trigger] rows[r],
            (#[trigger] services[k]).1,
        ) ==> {
            &&& forall|port: u16| #[trigger]
                has_moved(services[k], ports, port) ==> done[r] == replace_all(
                    rows[r],
                    services[k].1,
                    url_with_port(services[k].1, port as nat),
                )
            &&& (forall|port: u16| !#[trigger] has_moved(services[k], ports, port)) ==> done[r]
                == rows[r]
        }
    &&& forall|r: int|
        0 <= r < rows.len() && (forall|k: int|
            0 <= k < services.len() && names_port(#[trigger] services[k]) ==> !contains(
                rows[r],
                services[k].1,
            )) ==> (
        #[trigger] done[r]) == rows[r]
}

proof fn lemma_moved_is_absent(
    rows: Seq<Seq<char>>,
    services: Seq<(Seq<char>, Seq<char>)>,
    ports: Seq<(Seq<char>, u16)>,
    r: int,
    k: int,
    j: int,
    q: u16,
)
    requires
        0 <= r < rows.len(),
        0 <= k < services.len(),
        0 <= j < services.len(),
        names_port(services[j]),
        stand_on_different_lines(rows, services, ports),
        contains(rows[r], services[k].1),
        has_moved(services[k], ports, q),
    ensures
        !contains(
            replace_all(rows[r], services[k].1, url_with_port(services[k].1, q as nat)),
            services[j].1,
        ),
{
    let _ = services[j];
}

proof fn lemma_row_stays(
    row: Seq<char>,
    services: Seq<(Seq<char>, Seq<char>)>,
    ports: Seq<(Seq<char>, u16)>,
    n: nat,
)
    requires
        n <= services.len(),
        forall|k: int|
            0 <= k < services.len() && names_port(#[trigger] services[k]) ==> !contains(
                row,
                services[k].1,
            ),
    ensures
        moved_row(row, services, ports, n) == row,
    decreases n,
{
    if n > 0 {
        lemma_row_stays(row, services, ports, (n - 1) as nat);
        let s = services[n - 1];
        if first_port(ports, port_key(s.0), 0) is Some && names_port(s) {
            lemma_absent_is_not_replaced(
                row,
                s.1,
                url_with_port(s.1, first_port(ports, port_key(s.0), 0)->0 as nat),
            );
        }
    }
}

/// What a line holds, the lines hold together.
proof fn lemma_part_of_lines(rows: Seq<Seq<char>>, r: int, pat: Seq<char>)
    requires
        0 <= r < rows.len(),
        contains(rows[r], pat),
    ensures
        contains(join(rows, "\n"@), pat),
    decreases rows.len(),
{
    let j = choose|j: int| at(rows[r], pat, j);
    let s = join(rows, "\n"@);
    if rows.len() == 1 {
        assert(at(s, pat, j));
    } else if r == rows.len() - 1 {
        let start = join(rows.drop_last(), "\n"@) + "\n"@;
        assert(s =~= start + rows[r]);
        assert(s.subrange(start.len() + j, start.len() + j + pat.len()) =~= rows[r].subrange(
            j,
            j + pat.len(),
        ));
        assert(at(s, pat, start.len() + j));
    } else {
        let rest = rows.drop_last();
        assert(rest[r] == rows[r]);
        lemma_part_of_lines(rest, r, pat);
        let first = join(rest, "\n"@);
        let i = choose|i: int| at(first, pat, i);
        assert(s.subrange(i, i + pat.len()) =~= first.subrange(i, i + pat.len()));
        assert(at(s, pat, i));
    }
}

} // verus!
