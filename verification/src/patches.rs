//! Changes to the files of an instance that let it run where a template does not.
use vstd::prelude::*;
use vstd::string::*;

use crate::json::{
    json_entries, json_object, json_object_at, json_with, json_with_object, put_list, put_text,
    remove_entry,
};
use crate::search::{at, contains, find, head, lemma_find, position, tail, text_has};
use crate::text::{chars_of, opt_text, owned};

verus! {

// ---------------------------------------------------------------------------------------------
// Replacing once
// ---------------------------------------------------------------------------------------------
/// `s` with the first `from` in it replaced by `to`.
pub open spec fn replace_first(s: Seq<char>, from: Seq<char>, to: Seq<char>) -> Seq<char> {
    match find(s, from) {
        Some(i) => s.take(i) + to + s.skip(i + from.len()),
        None => s,
    }
}

fn replaced_first(text: &str, from: &str, to: &str) -> (out: String)
    ensures
        out@ == replace_first(text@, from@, to@),
{
    match position(text, from) {
        Some(i) => {
            let size: usize = chars_of(from).len();
            let mut out: String = head(text, i);
            let rest: String = tail(text, i + size);
            out.append(to);
            out.append(rest.as_str());
            out
        },
        None => owned(text),
    }
}

/// What stands in the middle of a text stands in the text.
proof fn lemma_contains_middle(a: Seq<char>, m: Seq<char>, b: Seq<char>)
    ensures
        contains(a + m + b, m),
{
    let s = a + m + b;
    assert(s.subrange(a.len() as int, (a.len() + m.len()) as int) =~= m);
    assert(at(s, m, a.len() as int));
}

/// What stands in a part stands in the whole.
proof fn lemma_contains_part(a: Seq<char>, part: Seq<char>, b: Seq<char>, m: Seq<char>)
    requires
        contains(part, m),
    ensures
        contains(a + part + b, m),
{
    let i = choose|i: int| at(part, m, i);
    let s = a + part + b;
    assert(s.subrange(a.len() + i, a.len() + i + m.len()) =~= part.subrange(i, i + m.len()));
    assert(at(s, m, a.len() + i));
}

// ---------------------------------------------------------------------------------------------
// Converting models
// ---------------------------------------------------------------------------------------------
/// How a template calls the exporter of models.
pub const EXPORTER_MODULE: &'static str = r#"sys.executable, "-m", "optimum.exporters.openvino","#;

/// How the exporter of models is called by its own command.
pub const EXPORTER_COMMAND: &'static str = r#""optimum-cli", "export", "openvino","#;

/// The content of a script that converts models, calling the exporter by its own command; nothing
/// where the script needs no change.
pub open spec fn convert_models_patch(content: Seq<char>) -> Option<Seq<char>> {
    if contains(content, EXPORTER_MODULE@) {
        Some(replace_first(content, EXPORTER_MODULE@, EXPORTER_COMMAND@))
    } else {
        None
    }
}

/// Lets a script that converts models call the exporter by its own command.
pub fn patch_convert_models_if_needed(content: &str) -> (r: Option<String>)
    ensures
        opt_text(r) == convert_models_patch(content@),
{
    if text_has(content, EXPORTER_MODULE) {
        Some(replaced_first(content, EXPORTER_MODULE, EXPORTER_COMMAND))
    } else {
        None
    }
}

// ---------------------------------------------------------------------------------------------
// Asynchronous calls
// ---------------------------------------------------------------------------------------------
/// The line of an agent that asynchronous calls are made to work before.
pub const AGENT_IMPORT: &'static str = "from langchain_oceanbase.vectorstores import OceanbaseVectorStore";

/// The name that tells that asynchronous calls work already.
pub const ASYNC_MARK: &'static str = "_patched_agenerate";

/// What lets asynchronous calls of a local pipeline work, up to the first use of that name.
pub const ASYNC_SHIM_START: &'static str = r#"
# --- Async compatibility shim for HuggingFacePipeline ---
# ChatHuggingFace._astream doesn't check for HuggingFacePipeline and tries
# to access async_client (which only exists on HuggingFaceEndpoint).
# Route async calls through asyncio.to_thread to the sync _generate method.
import asyncio
from langchain_core.messages import AIMessageChunk
from langchain_core.outputs import ChatGenerationChunk as _ChatGenChunk
try:
    from langchain_huggingface.chat_models.huggingface import ChatHuggingFace
    from langchain_huggingface.chat_models.huggingface import HuggingFacePipeline
except ImportError:
    try:
        from langchain_community.chat_models.huggingface import ChatHuggingFace
        from langchain_community.llms.huggingface_pipeline import HuggingFacePipeline
    except ImportError:
        ChatHuggingFace = None
        HuggingFacePipeline = None

if ChatHuggingFace is not None:
    _orig_agenerate = ChatHuggingFace._agenerate
    _orig_astream = ChatHuggingFace._astream

    async def "#;

/// What lets asynchronous calls of a local pipeline work, behind the first use of that name.
pub const ASYNC_SHIM_END: &'static str = r#"(self, messages, stop=None, run_manager=None, stream=None, **kwargs):
        if isinstance(self.llm, HuggingFacePipeline):
            return await asyncio.to_thread(self._generate, messages, stop, run_manager, **kwargs)
        return await _orig_agenerate(self, messages, stop, run_manager, stream, **kwargs)

    async def _patched_astream(self, messages, stop=None, run_manager=None, *, stream_usage=None, **kwargs):
        if isinstance(self.llm, HuggingFacePipeline):
            result = await asyncio.to_thread(self._generate, messages, stop, run_manager, **kwargs)
            for gen in result.generations:
                yield _ChatGenChunk(message=AIMessageChunk(content=gen.text), generation_info=gen.generation_info)
            return
        async for chunk in _orig_astream(self, messages, stop, run_manager, stream_usage=stream_usage, **kwargs):
            yield chunk

    ChatHuggingFace._agenerate = _patched_agenerate
    ChatHuggingFace._astream = _patched_astream
"#;

/// The content of an agent in which asynchronous calls of a local pipeline work; nothing where the
/// agent needs no change.
pub open spec fn agent_async_patch(content: Seq<char>) -> Option<Seq<char>> {
    if !contains(content, ASYNC_MARK@) && contains(content, AGENT_IMPORT@) {
        Some(
            replace_first(
                content,
                AGENT_IMPORT@,
                ASYNC_SHIM_START@ + ASYNC_MARK@ + ASYNC_SHIM_END@ + "\n"@ + AGENT_IMPORT@,
            ),
        )
    } else {
        None
    }
}

/// Lets asynchronous calls of a local pipeline work in an agent.
pub fn patch_agent_async_if_needed(content: &str) -> (r: Option<String>)
    ensures
        opt_text(r) == agent_async_patch(content@),
{
    if text_has(content, ASYNC_MARK) {
        return None;
    }
    if !text_has(content, AGENT_IMPORT) {
        return None;
    }
    let shim: String = owned(ASYNC_SHIM_START).concat(ASYNC_MARK).concat(ASYNC_SHIM_END).concat(
        "\n",
    ).concat(AGENT_IMPORT);
    Some(replaced_first(content, AGENT_IMPORT, shim.as_str()))
}

/// An agent is changed once: what was changed needs no change.
pub proof fn law_agent_is_patched_once(content: Seq<char>)
    ensures
        agent_async_patch(content) matches Some(patched) ==> agent_async_patch(patched) is None,
{
    if agent_async_patch(content) is Some {
        lemma_find(content, AGENT_IMPORT@);
        let i = find(content, AGENT_IMPORT@)->0;
        let end = ASYNC_SHIM_END@ + "\n"@ + AGENT_IMPORT@;
        let shim = ASYNC_SHIM_START@ + ASYNC_MARK@ + ASYNC_SHIM_END@ + "\n"@ + AGENT_IMPORT@;
        lemma_contains_middle(ASYNC_SHIM_START@, ASYNC_MARK@, end);
        assert(ASYNC_SHIM_START@ + ASYNC_MARK@ + end =~= shim);
        lemma_contains_part(
            content.take(i),
            shim,
            content.skip(i + AGENT_IMPORT@.len()),
            ASYNC_MARK@,
        );
    }
}

// ---------------------------------------------------------------------------------------------
// Mirrors
// ---------------------------------------------------------------------------------------------
/// The mirror of packages.
pub const PACKAGE_MIRROR: &'static str = "mirrors.aliyun.com";

/// How a build file refreshes the list of packages.
pub const APT_UPDATE: &'static str = "apt-get update";

/// A refresh of the list of packages that falls back on the mirror, up to its first name.
pub const APT_FALLBACK_START: &'static str = r#"(timeout 60 apt-get update -o Acquire::http::Timeout=10 -o Acquire::https::Timeout=10 -o Acquire::Retries=1 && [ -n "$(find /var/lib/apt/lists -name '*Packages*' 2>/dev/null)" ] || (sed -i 's|deb.debian.org|"#;

/// A refresh of the list of packages that falls back on the mirror, behind its first name.
pub const APT_FALLBACK_END: &'static str = r#"|g; s|security.debian.org|mirrors.aliyun.com|g' /etc/apt/sources.list.d/debian.sources 2>/dev/null; sed -i 's|deb.debian.org|mirrors.aliyun.com|g; s|security.debian.org|mirrors.aliyun.com|g' /etc/apt/sources.list 2>/dev/null; apt-get update))"#;

/// The content of a build file that falls back on a mirror of packages; nothing where the file needs
/// no change.
pub open spec fn apt_mirror_patch(content: Seq<char>) -> Option<Seq<char>> {
    if !contains(content, PACKAGE_MIRROR@) && contains(content, APT_UPDATE@) {
        Some(
            replace_first(
                content,
                APT_UPDATE@,
                APT_FALLBACK_START@ + PACKAGE_MIRROR@ + APT_FALLBACK_END@,
            ),
        )
    } else {
        None
    }
}

/// Lets a build file fall back on a mirror of packages.
pub fn patch_dockerfile_apt_mirror_if_needed(content: &str) -> (r: Option<String>)
    ensures
        opt_text(r) == apt_mirror_patch(content@),
{
    if text_has(content, PACKAGE_MIRROR) {
        return None;
    }
    if !text_has(content, APT_UPDATE) {
        return None;
    }
    let fallback: String = owned(APT_FALLBACK_START).concat(PACKAGE_MIRROR).concat(
        APT_FALLBACK_END,
    );
    Some(replaced_first(content, APT_UPDATE, fallback.as_str()))
}

/// A build file gets the mirror of packages once: what was changed needs no change.
pub proof fn law_apt_mirror_is_added_once(content: Seq<char>)
    ensures
        apt_mirror_patch(content) matches Some(patched) ==> apt_mirror_patch(patched) is None,
{
    if apt_mirror_patch(content) is Some {
        lemma_find(content, APT_UPDATE@);
        let i = find(content, APT_UPDATE@)->0;
        let fallback = APT_FALLBACK_START@ + PACKAGE_MIRROR@ + APT_FALLBACK_END@;
        lemma_contains_middle(APT_FALLBACK_START@, PACKAGE_MIRROR@, APT_FALLBACK_END@);
        lemma_contains_part(
            content.take(i),
            fallback,
            content.skip(i + APT_UPDATE@.len()),
            PACKAGE_MIRROR@,
        );
    }
}

/// The mirror of repositories.
pub const REPOSITORY_MIRROR: &'static str = "ghfast.top";

/// The command that installs the dependencies of a project.
pub const DEPENDENCY_SYNC: &'static str = "uv sync";

/// The start of the lines that choose an index of Python packages.
pub const INDEX_CHOICE: &'static str = r#"if [ -n "${UV_DEFAULT_INDEX:-}""#;

/// The start of one of the lines behind those that choose an index.
pub const HOST_CHOICE: &'static str = r#"if [ -n "${UV_INSECURE_HOST"#;

/// Another line behind those that choose an index.
pub const LINK_MODE: &'static str = "UV_LINK_MODE";

/// A choice of repositories and of an index by their speed, up to the first name of the mirror.
pub const SPEED_CHOICE_START: &'static str = r#"timeout 15 python -c "import urllib.request,time,sys; c=open('pyproject.toml').read(); i=c.find('github.com/'); sys.exit(0) if i<0 else None; r=c[i+11:].split('\"')[0]; r=r[:-4] if r.endswith('.git') else r; s=time.time(); urllib.request.urlopen(f'https://github.com/{r}/archive/HEAD.tar.gz',timeout=10).read(500000); sys.exit(1 if time.time()-s>3 else 0)" >/dev/null 2>&1 || \
        git config --global url."https://"#;

/// A choice of repositories and of an index by their speed, behind the first name of the mirror.
pub const SPEED_CHOICE_END: &'static str = r#"/https://github.com/".insteadOf "https://github.com/"; \
    if [ -n "${UV_DEFAULT_INDEX:-}" ]; then export UV_DEFAULT_INDEX; \
    elif [ -n "${UV_INDEX_URL:-}" ]; then export UV_INDEX_URL; \
    elif ! timeout 15 python -c "import urllib.request,time; start=time.time(); resp=urllib.request.urlopen('https://pypi.org/simple/pip/',timeout=5); resp.read(200000); assert time.time()-start<=3" >/dev/null 2>&1; then \
        export UV_INDEX_URL=https://mirrors.aliyun.com/pypi/simple/; \
    fi; \
    "#;

/// Where the lines that choose an index end: before the first of the lines that may follow them.
pub open spec fn choice_end(rest: Seq<char>) -> int {
    let a = match find(rest, HOST_CHOICE@) {
        Some(i) => i,
        None => rest.len() as int,
    };
    let b = match find(rest, LINK_MODE@) {
        Some(i) => i,
        None => rest.len() as int,
    };
    if a <= b {
        a
    } else {
        b
    }
}

/// The content of a build file that falls back on mirrors where the originals are slow; nothing
/// where the file needs no change.
pub open spec fn mirrors_patch(content: Seq<char>) -> Option<Seq<char>> {
    if contains(content, REPOSITORY_MIRROR@) || !contains(content, DEPENDENCY_SYNC@) {
        None
    } else {
        match find(content, INDEX_CHOICE@) {
            None => None,
            Some(i) => {
                let rest = content.skip(i);
                Some(
                    content.take(i) + (SPEED_CHOICE_START@ + REPOSITORY_MIRROR@ + SPEED_CHOICE_END@)
                        + rest.skip(choice_end(rest)),
                )
            },
        }
    }
}

fn choice_end_position(rest: &str) -> (n: usize)
    ensures
        n == choice_end(rest@),
        n <= rest@.len(),
{
    let size: usize = chars_of(rest).len();
    let a: usize = match position(rest, HOST_CHOICE) {
        Some(i) => i,
        None => size,
    };
    let b: usize = match position(rest, LINK_MODE) {
        Some(i) => i,
        None => size,
    };
    if a <= b {
        a
    } else {
        b
    }
}

/// Lets a build file fall back on mirrors where the originals are slow.
pub fn patch_dockerfile_mirrors_if_needed(content: &str) -> (r: Option<String>)
    ensures
        opt_text(r) == mirrors_patch(content@),
{
    if text_has(content, REPOSITORY_MIRROR) {
        return None;
    }
    if !text_has(content, DEPENDENCY_SYNC) {
        return None;
    }
    match position(content, INDEX_CHOICE) {
        None => None,
        Some(i) => {
            let rest: String = tail(content, i);
            let end: usize = choice_end_position(rest.as_str());
            let behind: String = tail(rest.as_str(), end);
            let block: String = owned(SPEED_CHOICE_START).concat(REPOSITORY_MIRROR).concat(
                SPEED_CHOICE_END,
            );
            let mut out: String = head(content, i);
            out.append(block.as_str());
            out.append(behind.as_str());
            Some(out)
        },
    }
}

/// A build file gets the mirrors once: what was changed needs no change.
pub proof fn law_mirrors_are_added_once(content: Seq<char>)
    ensures
        mirrors_patch(content) matches Some(patched) ==> mirrors_patch(patched) is None,
{
    if mirrors_patch(content) is Some {
        let i = find(content, INDEX_CHOICE@)->0;
        let rest = content.skip(i);
        let block = SPEED_CHOICE_START@ + REPOSITORY_MIRROR@ + SPEED_CHOICE_END@;
        lemma_contains_middle(SPEED_CHOICE_START@, REPOSITORY_MIRROR@, SPEED_CHOICE_END@);
        lemma_contains_part(
            content.take(i),
            block,
            rest.skip(choice_end(rest)),
            REPOSITORY_MIRROR@,
        );
    }
}

// ---------------------------------------------------------------------------------------------
// Requests from other origins
// ---------------------------------------------------------------------------------------------
/// The rule that names the origins that are let in.
pub const NAMED_ORIGINS: &'static str = "allow_origins";

/// The rule that says by a pattern which origins are let in, and the pattern that lets in all.
pub const ORIGIN_PATTERN: &'static str = "allow_origin_regex";

pub const ANY_ORIGIN: &'static str = "^https?://.*$";

/// The rules on methods and on headers, and what lets in all of them.
pub const METHODS: &'static str = "allow_methods";

pub const HEADERS: &'static str = "allow_headers";

pub const ANYTHING: &'static str = "*";

/// Rules that let in any origin, with any method and any header: the named origins are gone, and the
/// other rules stay.
pub open spec fn opened(rules: Map<Seq<char>, Seq<char>>) -> Map<Seq<char>, Seq<char>> {
    rules.remove(NAMED_ORIGINS@).insert(ORIGIN_PATTERN@, "\""@ + ANY_ORIGIN@ + "\""@).insert(
        METHODS@,
        "[\""@ + ANYTHING@ + "\"]"@,
    ).insert(HEADERS@, "[\""@ + ANYTHING@ + "\"]"@)
}

/// Makes rules let in any origin, with any method and any header. The other rules stay.
pub fn open_cors(rules: &mut serde_json::Map<String, serde_json::Value>)
    ensures
        json_entries(*final(rules)) == opened(json_entries(*old(rules))),
{
    proof {
        reveal_strlit("^https?://.*$");
        reveal_strlit("*");
    }
    remove_entry(rules, NAMED_ORIGINS);
    put_text(rules, ORIGIN_PATTERN, ANY_ORIGIN);
    put_list(rules, METHODS, ANYTHING);
    put_list(rules, HEADERS, ANYTHING);
}

/// Lets any origin send requests to the server of an instance: the origins that a template names
/// give way to rules for all. The configuration is the argument; nothing where it has no such rules.
pub fn patch_langgraph_cors_if_needed(content: &str) -> (r: Option<String>)
    ensures
        opt_text(r) == (match json_object(content@, "/http/cors"@) {
            Some(rules) => match json_with(content@, "/http/cors"@, opened(rules)) {
                Some(document) => Some(document + "\n"@),
                None => None,
            },
            None => None,
        }),
{
    match json_object_at(content, "/http/cors") {
        Some(found) => {
            let mut rules: serde_json::Map<String, serde_json::Value> = found;
            open_cors(&mut rules);
            match json_with_object(content, "/http/cors", rules) {
                Some(document) => Some(document.concat("\n")),
                None => None,
            }
        },
        None => None,
    }
}

/// Whatever the rules were, the new ones name no origins, let in any origin, method and header, and
/// hold every other rule that was there and nothing else.
pub proof fn law_any_origin_is_let_in(rules: Map<Seq<char>, Seq<char>>)
    ensures
        !opened(rules).contains_key(NAMED_ORIGINS@),
        opened(rules).contains_pair(ORIGIN_PATTERN@, "\""@ + ANY_ORIGIN@ + "\""@),
        opened(rules).contains_pair(METHODS@, "[\""@ + ANYTHING@ + "\"]"@),
        opened(rules).contains_pair(HEADERS@, "[\""@ + ANYTHING@ + "\"]"@),
        forall|name: Seq<char>, value: Seq<char>|
            name != NAMED_ORIGINS@ && name != ORIGIN_PATTERN@ && name != METHODS@ && name
                != HEADERS@ ==> (#[trigger] opened(rules).contains_pair(name, value)
                <==> rules.contains_pair(name, value)),
        opened(opened(rules)) == opened(rules),
{
    reveal_strlit("allow_origins");
    reveal_strlit("allow_origin_regex");
    reveal_strlit("allow_methods");
    reveal_strlit("allow_headers");
    assert(NAMED_ORIGINS@.len() == 13 && METHODS@.len() == 13 && HEADERS@.len() == 13
        && ORIGIN_PATTERN@.len() == 18);
    assert(NAMED_ORIGINS@[6] == 'o' && METHODS@[6] == 'm' && HEADERS@[6] == 'h');
    assert(opened(opened(rules)) =~= opened(rules));
}

} // verus!
