//! What holds of the services that an instance shows.
use vstd::prelude::*;

use crate::env::{last_with_key, EnvVariableView};
use crate::instances::{
    endpoint_of, enriched, of_rank, ranked, reached_service, reached_services, service_rank,
};
use crate::model::{InstanceRecordView, ServiceEndpointView};
use crate::ports::port_value;
use crate::search::trim;
use crate::services::{
    env_port, first_env_port, kind_of, role_port_keys, service_port_keys, shown_name,
};
use crate::text::{ascii_lower, ascii_upper};
use crate::urls::url_with_port;

verus! {

// ---------------------------------------------------------------------------------------------
// All services are shown
// ---------------------------------------------------------------------------------------------
/// A service that has a URL.
pub open spec fn has_url() -> spec_fn((Seq<char>, Seq<char>)) -> bool {
    |s: (Seq<char>, Seq<char>)| trim(s.1).len() > 0
}

proof fn lemma_ranks_share_out<T>(
    services: Seq<(Seq<char>, Seq<char>)>,
    f: spec_fn((Seq<char>, Seq<char>)) -> T,
)
    ensures
        ranked(services).map_values(f).to_multiset() == services.map_values(f).to_multiset(),
        ranked(services).len() == services.len(),
    decreases services.len(),
{
    broadcast use vstd::seq_lib::group_to_multiset_ensures;

    reveal(Seq::filter);
    if services.len() == 0 {
        assert(ranked(services) =~= services);
    } else {
        let rest = services.drop_last();
        let x = services.last();
        lemma_ranks_share_out(rest, f);
        let r = service_rank(x.0);
        let a = of_rank(rest, 0);
        let b = of_rank(rest, 1);
        let c = of_rank(rest, 2);
        let d = of_rank(rest, 3);
        let e = of_rank(rest, 4);
        let before = ranked(rest);
        let out = ranked(services);
        let k: int = if r == 0 {
            a.len() as int
        } else if r == 1 {
            (a.len() + b.len()) as int
        } else if r == 2 {
            (a.len() + b.len() + c.len()) as int
        } else if r == 3 {
            (a.len() + b.len() + c.len() + d.len()) as int
        } else {
            before.len() as int
        };
        assert(out =~= before.insert(k, x));
        assert(out.map_values(f).remove(k) =~= before.map_values(f));
        assert(out.map_values(f)[k] == f(x));
        assert(services.map_values(f) =~= rest.map_values(f).push(f(x)));
        assert(out.map_values(f).to_multiset() =~= before.map_values(f).to_multiset().insert(f(x)));
    }
}

proof fn lemma_ranked_holds(services: Seq<(Seq<char>, Seq<char>)>, s: (Seq<char>, Seq<char>))
    requires
        services.contains(s),
    ensures
        ranked(services).contains(s),
{
    broadcast use vstd::seq_lib::group_to_multiset_ensures;

    let same = |x: (Seq<char>, Seq<char>)| x;
    lemma_ranks_share_out(services, same);
    assert(ranked(services).map_values(same) =~= ranked(services));
    assert(services.map_values(same) =~= services);
    assert(services.to_multiset().count(s) > 0);
}

proof fn lemma_reached(services: Seq<(Seq<char>, Seq<char>)>, env: Seq<EnvVariableView>)
    ensures
        reached_services(services, env) == services.filter(has_url()).map_values(
            |s: (Seq<char>, Seq<char>)| reached_service(s, env),
        ),
    decreases services.len(),
{
    reveal(Seq::filter);
    let f = |s: (Seq<char>, Seq<char>)| reached_service(s, env);
    if services.len() == 0 {
        assert(reached_services(services, env) =~= services.filter(has_url()).map_values(f));
    } else {
        lemma_reached(services.drop_last(), env);
        assert(reached_services(services, env) =~= services.filter(has_url()).map_values(f));
    }
}

/// Every service that its manifest declares with a URL is shown once with an instance, and nothing
/// else: under its name, of its kind, and at its address.
pub proof fn law_every_service_is_shown(
    instance: InstanceRecordView,
    version: u32,
    name: Seq<char>,
    services: Seq<(Seq<char>, Seq<char>)>,
    env: Seq<EnvVariableView>,
)
    ensures
        ({
            let shown = enriched(instance, version, name, services, env).service_endpoints;
            let declared = services.filter(|s: (Seq<char>, Seq<char>)| trim(s.1).len() > 0);
            &&& shown.len() == declared.len()
            &&& shown.to_multiset() == declared.map_values(
                |s: (Seq<char>, Seq<char>)|
                    ServiceEndpointView {
                        name: shown_name(s.0),
                        url: reached_service(s, env).1,
                        kind: kind_of(s.0).0,
                        primary: kind_of(s.0).1,
                    },
            ).to_multiset()
            &&& forall|i: int|
                0 <= i < services.len() && trim((#[trigger] services[i]).1).len() > 0 ==> exists|
                    j: int,
                |
                    0 <= j < shown.len() && (#[trigger] shown[j]).name == shown_name(services[i].0)
                        && shown[j].url == reached_service(services[i], env).1
        }),
{
    let shown = enriched(instance, version, name, services, env).service_endpoints;
    let p = |s: (Seq<char>, Seq<char>)| trim(s.1).len() > 0;
    assert(p =~= has_url());
    let declared = services.filter(p);
    let show = |s: (Seq<char>, Seq<char>)| endpoint_of(s);
    let reach = |s: (Seq<char>, Seq<char>)| reached_service(s, env);
    let both = |s: (Seq<char>, Seq<char>)|
        ServiceEndpointView {
            name: shown_name(s.0),
            url: reached_service(s, env).1,
            kind: kind_of(s.0).0,
            primary: kind_of(s.0).1,
        };
    lemma_reached(services, env);
    let reached = reached_services(services, env);
    lemma_ranks_share_out(reached, show);
    assert(reached.map_values(show) =~= declared.map_values(both)) by {
        assert forall|i: int| 0 <= i < declared.len() implies #[trigger] reached.map_values(show)[i]
            == declared.map_values(both)[i] by {
            assert(reached[i] == reached_service(declared[i], env));
        }
    }
    assert forall|i: int|
        0 <= i < services.len() && trim((#[trigger] services[i]).1).len() > 0 implies exists|j: int|
        0 <= j < shown.len() && (#[trigger] shown[j]).name == shown_name(services[i].0)
            && shown[j].url == reached_service(services[i], env).1 by {
        services.lemma_filter_contains(p, i);
        let m = choose|m: int| 0 <= m < declared.len() && declared[m] == services[i];
        assert(reached[m] == reached_service(services[i], env));
        assert(reached.contains(reached[m]));
        let order = ranked(reached);
        lemma_ranked_holds(reached, reached[m]);
        let j = choose|j: int| 0 <= j < order.len() && order[j] == reached[m];
        assert(shown[j] == endpoint_of(order[j]));
    }
}

/// What an instance shows besides its services: the version of its manifest, and the name of its
/// project where it had none. Nothing else of it changes.
pub proof fn law_manifest_tells_the_project(
    instance: InstanceRecordView,
    version: u32,
    name: Seq<char>,
    services: Seq<(Seq<char>, Seq<char>)>,
    env: Seq<EnvVariableView>,
)
    ensures
        ({
            let out = enriched(instance, version, name, services, env);
            &&& version > 0 ==> out.lifecycle_version == Some(version)
            &&& version == 0 ==> out.lifecycle_version is None
            &&& instance.project_name is Some ==> out.project_name == instance.project_name
            &&& instance.project_name is None && trim(name).len() > 0 ==> out.project_name == Some(
                name,
            )
            &&& instance.project_name is None && trim(name).len() == 0 ==> out.project_name is None
            &&& out == (InstanceRecordView {
                project_name: out.project_name,
                lifecycle_version: out.lifecycle_version,
                service_endpoints: out.service_endpoints,
                agent_url: out.agent_url,
                ui_url: out.ui_url,
                studio_url: out.studio_url,
                ..instance
            })
        }),
{
}

// ---------------------------------------------------------------------------------------------
// The order of services
// ---------------------------------------------------------------------------------------------
/// The name of an agent or its gateway.
pub open spec fn names_agent(name: Seq<char>) -> bool {
    ascii_lower(name) == "agent"@ || ascii_lower(name) == "gateway"@
}

/// The name of a frontend.
pub open spec fn names_frontend(name: Seq<char>) -> bool {
    ascii_lower(name) == "app"@ || ascii_lower(name) == "frontend"@ || ascii_lower(name) == "web"@
}

/// The name of a runtime of a frontend.
pub open spec fn names_runtime(name: Seq<char>) -> bool {
    ascii_lower(name) == "copilotkit"@ || ascii_lower(name) == "runtime"@
}

/// The name of a studio.
pub open spec fn names_studio(name: Seq<char>) -> bool {
    ascii_lower(name) == "studio"@ || ascii_lower(name) == "langsmith"@
}

/// The names that stand in different groups differ.
proof fn lemma_groups_are_apart()
    ensures
        "agent"@ != "app"@ && "agent"@ != "frontend"@ && "agent"@ != "web"@ && "agent"@
            != "copilotkit"@ && "agent"@ != "runtime"@ && "agent"@ != "studio"@ && "agent"@
            != "langsmith"@,
        "gateway"@ != "app"@ && "gateway"@ != "frontend"@ && "gateway"@ != "web"@ && "gateway"@
            != "copilotkit"@ && "gateway"@ != "runtime"@ && "gateway"@ != "studio"@ && "gateway"@
            != "langsmith"@,
        "app"@ != "copilotkit"@ && "app"@ != "runtime"@ && "app"@ != "studio"@ && "app"@
            != "langsmith"@,
        "frontend"@ != "copilotkit"@ && "frontend"@ != "runtime"@ && "frontend"@ != "studio"@
            && "frontend"@ != "langsmith"@,
        "web"@ != "copilotkit"@ && "web"@ != "runtime"@ && "web"@ != "studio"@ && "web"@
            != "langsmith"@,
        "copilotkit"@ != "studio"@ && "copilotkit"@ != "langsmith"@ && "runtime"@ != "studio"@
            && "runtime"@ != "langsmith"@,
{
    reveal_strlit("agent");
    reveal_strlit("gateway");
    reveal_strlit("app");
    reveal_strlit("frontend");
    reveal_strlit("web");
    reveal_strlit("copilotkit");
    reveal_strlit("runtime");
    reveal_strlit("studio");
    reveal_strlit("langsmith");
    assert("agent"@[0] == 'a' && "gateway"@[0] == 'g' && "frontend"@[0] == 'f' && "copilotkit"@[0]
        == 'c' && "runtime"@[0] == 'r' && "studio"@[0] == 's' && "langsmith"@[0] == 'l');
    assert("app"@.len() == 3 && "web"@.len() == 3 && "web"@[0] == 'w' && "app"@[0] == 'a'
        && "agent"@.len() == 5);
}

proof fn lemma_rank(name: Seq<char>)
    ensures
        names_agent(name) <==> service_rank(name) == 0,
        names_frontend(name) <==> service_rank(name) == 1,
        names_runtime(name) <==> service_rank(name) == 2,
        names_studio(name) <==> service_rank(name) == 3,
        service_rank(name) <= 4,
{
    lemma_groups_are_apart();
}

proof fn lemma_ranks_rise(services: Seq<(Seq<char>, Seq<char>)>)
    ensures
        forall|i: int, j: int|
            0 <= i < j < ranked(services).len() ==> service_rank(
                (#[trigger] ranked(services)[i]).0,
            ) <= service_rank((#[trigger] ranked(services)[j]).0),
{
    let a = of_rank(services, 0);
    let b = of_rank(services, 1);
    let c = of_rank(services, 2);
    let d = of_rank(services, 3);
    let e = of_rank(services, 4);
    let out = ranked(services);
    assert forall|r: nat, i: int| 0 <= i < of_rank(services, r).len() implies service_rank(
        (#[trigger] of_rank(services, r)[i]).0,
    ) == r by {
        services.lemma_filter_pred(
            |s: (Seq<char>, Seq<char>)| service_rank(s.0) == r,
            i,
        );
    }
    assert forall|i: int| 0 <= i < out.len() implies service_rank((#[trigger] out[i]).0) == (if i
        < a.len() {
        0int
    } else if i < a.len() + b.len() {
        1
    } else if i < a.len() + b.len() + c.len() {
        2
    } else if i < a.len() + b.len() + c.len() + d.len() {
        3
    } else {
        4
    }) by {
        if i < a.len() {
            assert(out[i] == a[i]);
        } else if i < a.len() + b.len() {
            assert(out[i] == b[i - a.len()]);
        } else if i < a.len() + b.len() + c.len() {
            assert(out[i] == c[i - a.len() - b.len()]);
        } else if i < a.len() + b.len() + c.len() + d.len() {
            assert(out[i] == d[i - a.len() - b.len() - c.len()]);
        } else {
            assert(out[i] == e[i - a.len() - b.len() - c.len() - d.len()]);
        }
    }
}

/// Services are shown in one order: agents before frontends, these before their runtimes, then
/// studios, then all others. Each keeps its place among its like.
pub proof fn law_services_are_shown_in_order(services: Seq<(Seq<char>, Seq<char>)>, i: int, j: int)
    requires
        0 <= i < j < ranked(services).len(),
    ensures
        ({
            let one = ranked(services)[i].0;
            let other = ranked(services)[j].0;
            &&& names_agent(other) ==> names_agent(one)
            &&& names_frontend(other) ==> names_agent(one) || names_frontend(one)
            &&& names_runtime(other) ==> names_agent(one) || names_frontend(one) || names_runtime(
                one,
            )
            &&& names_studio(other) ==> names_agent(one) || names_frontend(one) || names_runtime(
                one,
            ) || names_studio(one)
        }),
{
    lemma_rank(ranked(services)[i].0);
    lemma_rank(ranked(services)[j].0);
    lemma_ranks_rise(services);
}

/// The agent, the frontend and the studio of an instance are the last services of their kind that
/// have a URL; where there is none, what was known stays.
pub proof fn law_main_addresses(
    instance: InstanceRecordView,
    version: u32,
    name: Seq<char>,
    services: Seq<(Seq<char>, Seq<char>)>,
    env: Seq<EnvVariableView>,
    k: int,
)
    requires
        0 <= k < services.len(),
        trim(services[k].1).len() > 0,
    ensures
        ({
            let out = enriched(instance, version, name, services, env);
            let url = Some(reached_service(services[k], env).1);
            &&& names_agent(services[k].0) && (forall|i: int|
                k < i < services.len() ==> !(names_agent((#[trigger] services[i]).0) && trim(
                    services[i].1,
                ).len() > 0)) ==> out.agent_url == url
            &&& names_frontend(services[k].0) && (forall|i: int|
                k < i < services.len() ==> !(names_frontend((#[trigger] services[i]).0) && trim(
                    services[i].1,
                ).len() > 0)) ==> out.ui_url == url
            &&& names_studio(services[k].0) && (forall|i: int|
                k < i < services.len() ==> !(names_studio((#[trigger] services[i]).0) && trim(
                    services[i].1,
                ).len() > 0)) ==> out.studio_url == url
        }),
{
    lemma_rank(services[k].0);
    assert forall|i: int| 0 <= i < services.len() implies (names_agent((#[trigger] services[i]).0)
        <==> service_rank(services[i].0) == 0) && (names_frontend(services[i].0) <==> service_rank(
        services[i].0,
    ) == 1) && (names_studio(services[i].0) <==> service_rank(services[i].0) == 3) by {
        lemma_rank(services[i].0);
    }
    lemma_last_of_rank(services, env, service_rank(services[k].0), k);
}

/// The last service of a rank that has a URL gives the last one that is reached.
proof fn lemma_last_of_rank(
    services: Seq<(Seq<char>, Seq<char>)>,
    env: Seq<EnvVariableView>,
    rank: nat,
    k: int,
)
    requires
        0 <= k < services.len(),
        trim(services[k].1).len() > 0,
        service_rank(services[k].0) == rank,
    ensures
        (forall|i: int|
            k < i < services.len() ==> !(service_rank((#[trigger] services[i]).0) == rank && trim(
                services[i].1,
            ).len() > 0)) ==> of_rank(reached_services(services, env), rank).len() > 0 && of_rank(
            reached_services(services, env),
            rank,
        ).last().1 == reached_service(services[k], env).1,
    decreases services.len(),
{
    reveal(Seq::filter);
    if forall|i: int|
        k < i < services.len() ==> !(service_rank((#[trigger] services[i]).0) == rank && trim(
            services[i].1,
        ).len() > 0) {
        let rest = services.drop_last();
        let before = reached_services(rest, env);
        if k == services.len() - 1 {
            let x = reached_service(services[k], env);
            assert(before.push(x).drop_last() =~= before);
        } else {
            assert forall|i: int| k < i < rest.len() implies !(service_rank((#[trigger] rest[i]).0)
                == rank && trim(rest[i].1).len() > 0) by {
                assert(rest[i] == services[i]);
            }
            assert(rest[k] == services[k]);
            lemma_last_of_rank(rest, env, rank, k);
            let last = services[services.len() - 1];
            assert(services.last() == last);
            if trim(last.1).len() > 0 {
                let x = reached_service(last, env);
                assert(x.0 == last.0);
                assert(before.push(x).drop_last() =~= before);
                assert(service_rank(x.0) != rank);
            }
        }
    }
}

/// Without a service of their kind that has a URL, the addresses of an instance stay as they were.
pub proof fn law_unknown_addresses_stay(
    instance: InstanceRecordView,
    version: u32,
    name: Seq<char>,
    services: Seq<(Seq<char>, Seq<char>)>,
    env: Seq<EnvVariableView>,
)
    ensures
        ({
            let out = enriched(instance, version, name, services, env);
            &&& (forall|i: int|
                0 <= i < services.len() ==> !(names_agent((#[trigger] services[i]).0) && trim(
                    services[i].1,
                ).len() > 0)) ==> out.agent_url == instance.agent_url
            &&& (forall|i: int|
                0 <= i < services.len() ==> !(names_frontend((#[trigger] services[i]).0) && trim(
                    services[i].1,
                ).len() > 0)) ==> out.ui_url == instance.ui_url
            &&& (forall|i: int|
                0 <= i < services.len() ==> !(names_studio((#[trigger] services[i]).0) && trim(
                    services[i].1,
                ).len() > 0)) ==> out.studio_url == instance.studio_url
        }),
{
    assert forall|i: int| 0 <= i < services.len() implies (names_agent((#[trigger] services[i]).0)
        <==> service_rank(services[i].0) == 0) && (names_frontend(services[i].0) <==> service_rank(
        services[i].0,
    ) == 1) && (names_studio(services[i].0) <==> service_rank(services[i].0) == 3) by {
        lemma_rank(services[i].0);
    }
    lemma_none_of_rank(services, env, 0);
    lemma_none_of_rank(services, env, 1);
    lemma_none_of_rank(services, env, 3);
}

proof fn lemma_none_of_rank(
    services: Seq<(Seq<char>, Seq<char>)>,
    env: Seq<EnvVariableView>,
    rank: nat,
)
    ensures
        (forall|i: int|
            0 <= i < services.len() ==> !(service_rank((#[trigger] services[i]).0) == rank && trim(
                services[i].1,
            ).len() > 0)) ==> of_rank(reached_services(services, env), rank).len() == 0,
    decreases services.len(),
{
    reveal(Seq::filter);
    if services.len() > 0 && forall|i: int|
        0 <= i < services.len() ==> !(service_rank((#[trigger] services[i]).0) == rank && trim(
            services[i].1,
        ).len() > 0) {
        let rest = services.drop_last();
        assert forall|i: int| 0 <= i < rest.len() implies !(service_rank((#[trigger] rest[i]).0)
            == rank && trim(rest[i].1).len() > 0) by {
            assert(rest[i] == services[i]);
        }
        lemma_none_of_rank(rest, env, rank);
        let last = services[services.len() - 1];
        assert(services.last() == last);
        if trim(last.1).len() > 0 {
            let x = reached_service(last, env);
            let before = reached_services(rest, env);
            assert(before.push(x).drop_last() =~= before);
        }
    }
}

// ---------------------------------------------------------------------------------------------
// The address of a service
// ---------------------------------------------------------------------------------------------
proof fn lemma_no_key(env: Seq<EnvVariableView>, key: Seq<char>)
    requires
        forall|i: int| 0 <= i < env.len() ==> (#[trigger] env[i]).key != key,
    ensures
        last_with_key(env, key) is None,
    decreases env.len(),
{
    if env.len() > 0 {
        let rest = env.drop_last();
        assert forall|i: int| 0 <= i < rest.len() implies (#[trigger] rest[i]).key != key by {
            assert(rest[i] == env[i]);
        }
        assert(env[env.len() - 1].key != key);
        lemma_no_key(rest, key);
    }
}

proof fn lemma_last_key(env: Seq<EnvVariableView>, key: Seq<char>, k: int)
    requires
        0 <= k < env.len(),
        env[k].key == key,
        forall|i: int| k < i < env.len() ==> (#[trigger] env[i]).key != key,
    ensures
        last_with_key(env, key) == Some(env[k]),
    decreases env.len(),
{
    if k < env.len() - 1 {
        let rest = env.drop_last();
        assert forall|i: int| k < i < rest.len() implies (#[trigger] rest[i]).key != key by {
            assert(rest[i] == env[i]);
        }
        assert(rest[k] == env[k]);
        assert(env[env.len() - 1].key != key);
        lemma_last_key(rest, key, k);
    }
}

proof fn lemma_no_port_in(env: Seq<EnvVariableView>, keys: Seq<Seq<char>>)
    requires
        forall|i: int, j: int|
            0 <= i < env.len() && 0 <= j < keys.len() ==> (#[trigger] env[i]).key
                != #[trigger] keys[j],
    ensures
        first_env_port(env, keys) is None,
    decreases keys.len(),
{
    if keys.len() > 0 {
        assert forall|i: int| 0 <= i < env.len() implies (#[trigger] env[i]).key != keys[0] by {}
        lemma_no_key(env, keys[0]);
        assert forall|i: int, j: int|
            0 <= i < env.len() && 0 <= j < keys.skip(1).len() implies (#[trigger] env[i]).key
            != #[trigger] keys.skip(1)[j] by {
            assert(keys.skip(1)[j] == keys[j + 1]);
        }
        lemma_no_port_in(env, keys.skip(1));
    }
}

/// A service whose variables the file does not have is at the URL that the manifest declares. One
/// whose variable `NAME_PORT` holds a port above zero, where the file has none of the other variables
/// that may hold it, is at that URL with that port. The last variable of a name counts.
pub proof fn law_address_of_a_service(
    service: (Seq<char>, Seq<char>),
    env: Seq<EnvVariableView>,
    k: int,
)
    ensures
        reached_service(service, env).0 == service.0,
        (forall|i: int, j: int|
            0 <= i < env.len() && 0 <= j < service_port_keys(service.0).len() ==> (
            #[trigger] env[i]).key != #[trigger] service_port_keys(service.0)[j])
            ==> reached_service(service, env).1 == service.1,
        ({
            &&& 0 <= k < env.len()
            &&& env[k].key == ascii_upper(service.0) + "_PORT"@
            &&& forall|i: int| k < i < env.len() ==> (#[trigger] env[i]).key != env[k].key
            &&& port_value(env[k].value) is Some
            &&& port_value(env[k].value)->0 > 0
            &&& forall|i: int, j: int|
                0 <= i < env.len() && 0 <= j < role_port_keys(ascii_lower(service.0)).len() ==> (
                #[trigger] env[i]).key != #[trigger] role_port_keys(ascii_lower(service.0))[j]
        }) ==> reached_service(service, env).1 == url_with_port(
            service.1,
            port_value(env[k].value)->0,
        ),
{
    let keys = service_port_keys(service.0);
    let roles = role_port_keys(ascii_lower(service.0));
    let own = ascii_upper(service.0) + "_PORT"@;
    if forall|i: int, j: int|
        0 <= i < env.len() && 0 <= j < keys.len() ==> (#[trigger] env[i]).key
            != #[trigger] keys[j] {
        lemma_no_port_in(env, keys);
    }
    if ({
        &&& 0 <= k < env.len()
        &&& env[k].key == own
        &&& forall|i: int| k < i < env.len() ==> (#[trigger] env[i]).key != env[k].key
        &&& port_value(env[k].value) is Some
        &&& port_value(env[k].value)->0 > 0
        &&& forall|i: int, j: int|
            0 <= i < env.len() && 0 <= j < roles.len() ==> (#[trigger] env[i]).key
                != #[trigger] roles[j]
    }) {
        lemma_last_key(env, own, k);
        lemma_first_port_behind(env, roles, own);
    }
}

proof fn lemma_first_port_behind(env: Seq<EnvVariableView>, roles: Seq<Seq<char>>, own: Seq<char>)
    requires
        forall|i: int, j: int|
            0 <= i < env.len() && 0 <= j < roles.len() ==> (#[trigger] env[i]).key
                != #[trigger] roles[j],
    ensures
        first_env_port(env, roles.push(own)) == env_port(env, own),
    decreases roles.len(),
{
    let keys = roles.push(own);
    if roles.len() == 0 {
        assert(keys.skip(1) =~= Seq::<Seq<char>>::empty());
        assert(keys[0] == own);
        reveal_with_fuel(first_env_port, 2);
    } else {
        assert(keys[0] == roles[0]);
        assert forall|i: int| 0 <= i < env.len() implies (#[trigger] env[i]).key != keys[0] by {}
        lemma_no_key(env, keys[0]);
        assert(keys.skip(1) =~= roles.skip(1).push(own));
        assert forall|i: int, j: int|
            0 <= i < env.len() && 0 <= j < roles.skip(1).len() implies (#[trigger] env[i]).key
            != #[trigger] roles.skip(1)[j] by {
            assert(roles.skip(1)[j] == roles[j + 1]);
        }
        lemma_first_port_behind(env, roles.skip(1), own);
    }
}

/// The port of a variable counts before those of all variables behind it in the list of a service.
pub proof fn law_first_variable_counts(
    env: Seq<EnvVariableView>,
    keys: Seq<Seq<char>>,
    j: int,
    k: int,
)
    requires
        0 <= j < keys.len(),
        0 <= k < env.len(),
        env[k].key == keys[j],
        forall|i: int| k < i < env.len() ==> (#[trigger] env[i]).key != keys[j],
        port_value(env[k].value) is Some,
        port_value(env[k].value)->0 > 0,
        forall|i: int, m: int|
            0 <= i < env.len() && 0 <= m < j ==> (#[trigger] env[i]).key != #[trigger] keys[m],
    ensures
        first_env_port(env, keys) == port_value(env[k].value),
    decreases keys.len(),
{
    if j == 0 {
        lemma_last_key(env, keys[0], k);
    } else {
        assert forall|i: int| 0 <= i < env.len() implies (#[trigger] env[i]).key != keys[0] by {}
        lemma_no_key(env, keys[0]);
        let rest = keys.skip(1);
        assert(rest[j - 1] == keys[j]);
        assert forall|i: int, m: int|
            0 <= i < env.len() && 0 <= m < j - 1 implies (#[trigger] env[i]).key
            != #[trigger] rest[m] by {
            assert(rest[m] == keys[m + 1]);
        }
        law_first_variable_counts(env, rest, j - 1, k);
    }
}

// ---------------------------------------------------------------------------------------------
// Names and kinds
// ---------------------------------------------------------------------------------------------
/// A service that none of the known names fits, in whatever case, is shown under its own name, as
/// one of another kind, and only the variable that bears its name may hold its port. A frontend
/// is the primary service of its instance, and no other service is.
pub proof fn law_unknown_service_keeps_its_name(name: Seq<char>)
    ensures
        kind_of(name).1 <==> names_frontend(name),
        names_frontend(name) ==> shown_name(name) == "Frontend"@ && kind_of(name).0 == "web"@,
        names_agent(name) ==> shown_name(name) == "Agent / Gateway"@ && kind_of(name).0
            == "protocol"@,
        names_studio(name) ==> shown_name(name) == "LangSmith Studio"@ && kind_of(name).0
            == "web"@,
        ({
            let n = ascii_lower(name);
            !names_frontend(name) && !names_agent(name) && !names_studio(name) && !names_runtime(
                name,
            ) && n != "ctx"@ && n != "contextseek"@ && n != "phoenix"@ && n != "backend"@ && n
                != "langgraph"@ && n != "database"@ && n != "db"@ && n != "seekdb"@ && n
                != "oceanbase"@ ==> shown_name(name) == name && kind_of(name).0 == "other"@
                && service_port_keys(name) == seq![ascii_upper(name) + "_PORT"@]
        }),
        service_port_keys(name).len() > 0,
        service_port_keys(name).last() == ascii_upper(name) + "_PORT"@,
{
    lemma_groups_are_apart();
    reveal_strlit("phoenix");
    reveal_strlit("agent");
    reveal_strlit("gateway");
    reveal_strlit("ctx");
    reveal_strlit("contextseek");
    reveal_strlit("studio");
    reveal_strlit("langsmith");
    assert("phoenix"@[0] == 'p' && "agent"@[0] == 'a' && "gateway"@[0] == 'g');
    let keys = service_port_keys(name);
    if role_port_keys(ascii_lower(name)).len() == 0 {
        assert(keys =~= seq![ascii_upper(name) + "_PORT"@]);
    }
    assert("ctx"@[0] == 'c' && "studio"@[0] == 's' && "langsmith"@[0] == 'l');
}

} // verus!
