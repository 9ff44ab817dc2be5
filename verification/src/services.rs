//! Services of an instance: their names, their kinds and their ports.
use vstd::prelude::*;
use vstd::string::*;

use crate::env::{env_views, last_position_of_key, last_with_key, EnvVariable, EnvVariableView};
use crate::ports::{port_of_value, port_value};
use crate::text::{ascii_lower, ascii_upper, owned, same, texts, to_ascii_lower, to_ascii_upper};

verus! {

// ---------------------------------------------------------------------------------------------
// Groups of names
// ---------------------------------------------------------------------------------------------
pub open spec fn frontend_name(n: Seq<char>) -> bool {
    n == "app"@ || n == "frontend"@ || n == "web"@
}

pub open spec fn gateway_name(n: Seq<char>) -> bool {
    n == "gateway"@ || n == "agent"@
}

pub open spec fn context_name(n: Seq<char>) -> bool {
    n == "ctx"@ || n == "contextseek"@
}

pub open spec fn studio_name(n: Seq<char>) -> bool {
    n == "studio"@ || n == "langsmith"@
}

pub fn is_frontend_name(n: &str) -> (r: bool)
    ensures
        r == frontend_name(n@),
{
    same(n, "app") || same(n, "frontend") || same(n, "web")
}

pub fn is_gateway_name(n: &str) -> (r: bool)
    ensures
        r == gateway_name(n@),
{
    same(n, "gateway") || same(n, "agent")
}

fn is_context_name(n: &str) -> (r: bool)
    ensures
        r == context_name(n@),
{
    same(n, "ctx") || same(n, "contextseek")
}

pub fn is_studio_name(n: &str) -> (r: bool)
    ensures
        r == studio_name(n@),
{
    same(n, "studio") || same(n, "langsmith")
}

// ---------------------------------------------------------------------------------------------
// Names and kinds
// ---------------------------------------------------------------------------------------------
/// The name under which a service is shown.
pub open spec fn shown_name(name: Seq<char>) -> Seq<char> {
    let n = ascii_lower(name);
    if frontend_name(n) {
        "Frontend"@
    } else if gateway_name(n) {
        "Agent / Gateway"@
    } else if n == "copilotkit"@ {
        "CopilotKit Runtime"@
    } else if context_name(n) {
        "ContextSeek API"@
    } else if studio_name(n) {
        "LangSmith Studio"@
    } else {
        name
    }
}

/// The name under which a service is shown.
pub fn service_display_name(name: &str) -> (out: String)
    ensures
        out@ == shown_name(name@),
{
    let lower: String = to_ascii_lower(name);
    let n: &str = lower.as_str();
    if is_frontend_name(n) {
        owned("Frontend")
    } else if is_gateway_name(n) {
        owned("Agent / Gateway")
    } else if same(n, "copilotkit") {
        owned("CopilotKit Runtime")
    } else if is_context_name(n) {
        owned("ContextSeek API")
    } else if is_studio_name(n) {
        owned("LangSmith Studio")
    } else {
        owned(name)
    }
}

/// The kind of a service, and whether it is the primary one.
pub open spec fn kind_of(name: Seq<char>) -> (Seq<char>, bool) {
    let n = ascii_lower(name);
    if frontend_name(n) {
        ("web"@, true)
    } else if studio_name(n) || n == "phoenix"@ {
        ("web"@, false)
    } else if gateway_name(n) {
        ("protocol"@, false)
    } else if n == "copilotkit"@ || n == "backend"@ || n == "langgraph"@ || context_name(n) {
        ("api"@, false)
    } else if n == "database"@ || n == "db"@ || n == "seekdb"@ || n == "oceanbase"@ {
        ("database"@, false)
    } else {
        ("other"@, false)
    }
}

/// The kind of a service, and whether it is the primary one.
pub fn service_kind(name: &str) -> (r: (&'static str, bool))
    ensures
        (r.0@, r.1) == kind_of(name@),
{
    let lower: String = to_ascii_lower(name);
    let n: &str = lower.as_str();
    if is_frontend_name(n) {
        ("web", true)
    } else if is_studio_name(n) || same(n, "phoenix") {
        ("web", false)
    } else if is_gateway_name(n) {
        ("protocol", false)
    } else if same(n, "copilotkit") || same(n, "backend") || same(n, "langgraph")
        || is_context_name(n) {
        ("api", false)
    } else if same(n, "database") || same(n, "db") || same(n, "seekdb") || same(n, "oceanbase") {
        ("database", false)
    } else {
        ("other", false)
    }
}

// ---------------------------------------------------------------------------------------------
// The port of a service
// ---------------------------------------------------------------------------------------------
/// The variables that hold the port of a service by its role, the first one first.
pub open spec fn role_port_keys(n: Seq<char>) -> Seq<Seq<char>> {
    if frontend_name(n) {
        seq!["FRONTEND_PORT"@, "APP_PORT"@, "WEB_PORT"@]
    } else if gateway_name(n) {
        seq!["BUB_AG_UI_PORT"@, "AG_UI_PORT"@, "GATEWAY_PORT"@, "AGENT_PORT"@, "BACKEND_PORT"@]
    } else if n == "copilotkit"@ || n == "runtime"@ {
        seq!["COPILOTKIT_PORT"@, "RUNTIME_PORT"@]
    } else if n == "backend"@ || n == "langgraph"@ {
        seq!["BACKEND_PORT"@, "LANGGRAPH_PORT"@, "API_PORT"@]
    } else if context_name(n) {
        seq!["CTX_SERVER_PORT"@, "CONTEXTSEEK_PORT"@]
    } else if studio_name(n) {
        seq!["STUDIO_PORT"@, "LANGSMITH_PORT"@]
    } else if n == "phoenix"@ {
        seq!["PHOENIX_PORT"@]
    } else {
        seq![]
    }
}

/// The variables that may hold the port of a service: those of its role, and the one that bears its
/// name.
pub open spec fn service_port_keys(name: Seq<char>) -> Seq<Seq<char>> {
    role_port_keys(ascii_lower(name)).push(ascii_upper(name) + "_PORT"@)
}

/// The port above zero that a variable holds.
pub open spec fn env_port(env: Seq<EnvVariableView>, key: Seq<char>) -> Option<nat> {
    match last_with_key(env, key) {
        Some(entry) => match port_value(entry.value) {
            Some(port) => if port > 0 {
                Some(port)
            } else {
                None
            },
            None => None,
        },
        None => None,
    }
}

/// The port above zero that the first of `keys` with such a port holds.
pub open spec fn first_env_port(env: Seq<EnvVariableView>, keys: Seq<Seq<char>>) -> Option<nat>
    decreases keys.len(),
{
    if keys.len() == 0 {
        None
    } else {
        match env_port(env, keys[0]) {
            Some(port) => Some(port),
            None => first_env_port(env, keys.skip(1)),
        }
    }
}

fn port_in_env(env: &Vec<EnvVariable>, key: &str) -> (r: Option<u16>)
    ensures
        match r {
            Some(port) => env_port(env_views(env@), key@) == Some(port as nat),
            None => env_port(env_views(env@), key@) is None,
        },
{
    match last_position_of_key(env, key) {
        Some(i) => match port_of_value(env[i].value.as_str()) {
            Some(port) => if port > 0 {
                Some(port)
            } else {
                None
            },
            None => None,
        },
        None => None,
    }
}

fn role_port_key_list(n: &str) -> (out: Vec<String>)
    ensures
        texts(out@) == role_port_keys(n@),
{
    let mut out: Vec<String> = Vec::new();
    if is_frontend_name(n) {
        out.push(owned("FRONTEND_PORT"));
        out.push(owned("APP_PORT"));
        out.push(owned("WEB_PORT"));
    } else if is_gateway_name(n) {
        out.push(owned("BUB_AG_UI_PORT"));
        out.push(owned("AG_UI_PORT"));
        out.push(owned("GATEWAY_PORT"));
        out.push(owned("AGENT_PORT"));
        out.push(owned("BACKEND_PORT"));
    } else if same(n, "copilotkit") || same(n, "runtime") {
        out.push(owned("COPILOTKIT_PORT"));
        out.push(owned("RUNTIME_PORT"));
    } else if same(n, "backend") || same(n, "langgraph") {
        out.push(owned("BACKEND_PORT"));
        out.push(owned("LANGGRAPH_PORT"));
        out.push(owned("API_PORT"));
    } else if is_context_name(n) {
        out.push(owned("CTX_SERVER_PORT"));
        out.push(owned("CONTEXTSEEK_PORT"));
    } else if is_studio_name(n) {
        out.push(owned("STUDIO_PORT"));
        out.push(owned("LANGSMITH_PORT"));
    } else if same(n, "phoenix") {
        out.push(owned("PHOENIX_PORT"));
    }
    proof {
        assert(texts(out@) =~= role_port_keys(n@));
    }
    out
}

/// The port that an environment file gives a service.
pub fn service_env_port(name: &str, env: &Vec<EnvVariable>) -> (r: Option<u16>)
    ensures
        match r {
            Some(port) => first_env_port(env_views(env@), service_port_keys(name@)) == Some(
                port as nat,
            ),
            None => first_env_port(env_views(env@), service_port_keys(name@)) is None,
        },
{
    let lower: String = to_ascii_lower(name);
    let mut keys: Vec<String> = role_port_key_list(lower.as_str());
    let own: String = to_ascii_upper(name).concat("_PORT");
    keys.push(own);
    let ghost all = texts(keys@);
    let mut i: usize = 0;
    proof {
        assert(all =~= service_port_keys(name@));
        assert(all.skip(0) =~= all);
    }
    while i < keys.len()
        invariant
            i <= keys@.len(),
            all == texts(keys@),
            all == service_port_keys(name@),
            first_env_port(env_views(env@), all) == first_env_port(
                env_views(env@),
                all.skip(i as int),
            ),
        decreases keys@.len() - i,
    {
        proof {
            assert(all.skip(i as int)[0] == keys@[i as int]@);
            assert(all.skip(i as int).skip(1) =~= all.skip(i + 1));
        }
        match port_in_env(env, keys[i].as_str()) {
            Some(port) => {
                return Some(port);
            },
            None => {},
        }
        i += 1;
    }
    None
}

} // verus!
