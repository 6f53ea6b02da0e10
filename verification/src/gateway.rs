//! The gateway between an agent and the engine: its settings, the rewriting
//! of responses, the answers to wrapper calls, and the routing of requests.

use vstd::prelude::*;
use vstd::string::*;

use crate::cache;
use crate::cache::WrapperCache;
use crate::config::ServeConfig;
use crate::json;
use crate::json::Json;
use crate::json::JsonView;
use crate::mcp_trim;
use crate::mcp_trim::Profile;
use crate::mcp_trim::StripDescMode;
use crate::text;
use crate::wrappers;
use crate::wrappers::Dispatch;
use crate::wrappers::PluginTool;

verus! {

/// The settings of a gateway.
#[derive(Debug, Clone, Copy, PartialEq, Eq, Structural)]
pub struct GatewayCfg {
    pub profile: Profile,
    pub strip_desc: StripDescMode,
    pub max_tool_result_bytes: usize,
}

/// Whether a gateway shows the engine's own tool list.
pub open spec fn keeps_tool_list(cfg: GatewayCfg) -> bool {
    cfg.profile == Profile::Full && cfg.strip_desc == StripDescMode::Keep
}

/// Whether a gateway has nothing to rewrite.
pub open spec fn passes_through(cfg: GatewayCfg) -> bool {
    keeps_tool_list(cfg) && cfg.max_tool_result_bytes == 0
}

impl GatewayCfg {
    /// Whether the gateway has nothing to rewrite, so that the engine can
    /// serve directly.
    pub fn is_passthrough(&self) -> (r: bool)
        ensures
            r == passes_through(*self),
    {
        self.keeps_list() && self.max_tool_result_bytes == 0
    }

    /// Whether the gateway shows the engine's own tool list: a profile that
    /// advertises everything, with no stripping.
    pub fn keeps_list(&self) -> (r: bool)
        ensures
            r == keeps_tool_list(*self),
    {
        self.profile == Profile::Full && self.strip_desc == StripDescMode::Keep
    }
}

/// A setting: the flag, or else the configured value, or else the default.
pub open spec fn setting(
    flag: Option<&str>,
    configured: Option<String>,
    default: Seq<char>,
) -> Seq<char> {
    match flag {
        Some(s) => s@,
        None => match configured {
            Some(s) => s@,
            None => default,
        },
    }
}

fn choose_setting(flag: Option<&str>, configured: &Option<String>, default: &str) -> (r: String)
    ensures
        r@ == setting(flag, *configured, default@),
{
    match flag {
        Some(s) => s.to_string(),
        None => match configured {
            Some(s) => s.clone(),
            None => default.to_string(),
        },
    }
}

/// The settings of a gateway: each flag, or else the configured value, or
/// else the default (profile `standard`, descriptions of 200 bytes).
pub fn gateway_settings(
    profile_flag: Option<&str>,
    strip_flag: Option<&str>,
    configured: &ServeConfig,
    max_tool_result_bytes: usize,
) -> (r: Result<GatewayCfg, String>)
    ensures
        ({
            let profile = setting(profile_flag, configured.profile, "standard"@);
            let strip = setting(strip_flag, configured.strip_tool_descriptions, "200"@);
            match (mcp_trim::profile_named(profile), mcp_trim::strip_mode_named(strip)) {
                (Some(p), Some(s)) => r == Ok::<GatewayCfg, String>(
                    GatewayCfg { profile: p, strip_desc: s, max_tool_result_bytes },
                ),
                (None, _) => r is Err && r->Err_0@ == "invalid profile `"@ + profile
                    + "` (expected minimal|standard|full)"@,
                (Some(_), None) => r is Err && r->Err_0@
                    == "invalid --strip-tool-descriptions `"@ + strip
                    + "` (expected int|none|all)"@,
            }
        }),
{
    let profile_text = choose_setting(profile_flag, &configured.profile, "standard");
    let strip_text = choose_setting(strip_flag, &configured.strip_tool_descriptions, "200");
    let profile = match Profile::parse(profile_text.as_str()) {
        Ok(p) => p,
        Err(e) => return Err(e),
    };
    let strip_desc = match StripDescMode::parse(strip_text.as_str()) {
        Ok(s) => s,
        Err(e) => return Err(e),
    };
    Ok(GatewayCfg { profile, strip_desc, max_tool_result_bytes })
}

/// The response to a request as the gateway passes it on: a tool list with
/// the wrapper tools, filtered and stripped; a tool result trimmed; anything
/// else as it is. A gateway that shows the engine's own tool list leaves that
/// alone too, whatever the limit on tool results.
pub open spec fn rewritten(line: Seq<char>, method: Seq<char>, cfg: GatewayCfg) -> Seq<char> {
    if method == "tools/list"@ {
        if keeps_tool_list(cfg) {
            line
        } else {
            mcp_trim::trimmed_tools_line(
                wrappers::injected_line(line, cfg.profile),
                cfg.profile,
                cfg.strip_desc,
            )
        }
    } else if method == "tools/call"@ && cfg.max_tool_result_bytes > 0 {
        mcp_trim::trimmed_line(line, cfg.max_tool_result_bytes)
    } else {
        line
    }
}

/// The response line `json` to a request with the method `method`, as the
/// gateway passes it on. An agent that reads the line of a tool list gets the
/// advertised list, where the lists are plain.
pub fn apply_gateway_rewrite(json: &str, method: &str, cfg: &GatewayCfg) -> (r: String)
    ensures
        r@ == rewritten(json@, method@, *cfg),
        method@ == "tools/list"@ ==> match json::parsed_text(json@) {
            Some(v) => match (wrappers::injected(v, cfg.profile), advertised_list(v, *cfg)) {
                (Some(w), Some(list)) => json::plain(w, json::DEPTH_LIMIT as nat) && json::plain(
                    list,
                    json::DEPTH_LIMIT as nat,
                ) ==> json::parsed_text(r@) == Some(list),
                _ => r@ == json@,
            },
            None => r@ == json@,
        },
{
    if text::same(method, "tools/list") {
        if cfg.keeps_list() {
            return json.to_string();
        }
        let with_wrappers = wrappers::inject_into_tools_list(json, cfg.profile);
        mcp_trim::trim_tools_list_wire(with_wrappers.as_str(), cfg.profile, cfg.strip_desc)
    } else if text::same(method, "tools/call") && cfg.max_tool_result_bytes > 0 {
        mcp_trim::trim_rpc_response_wire(json, cfg.max_tool_result_bytes)
    } else {
        json.to_string()
    }
}

/// A response that is neither a tool list nor a tool result passes unchanged,
/// and so does a tool result where there is no limit. A line that is not JSON
/// passes unchanged in any case. Where the gateway shows the engine's own tool
/// list, that passes unchanged, and where it has nothing to rewrite, every
/// line does.
pub proof fn other_responses_pass_unchanged(
    line: Seq<char>,
    method: Seq<char>,
    cfg: GatewayCfg,
)
    ensures
        method != "tools/list"@ && (method != "tools/call"@ || cfg.max_tool_result_bytes == 0)
            ==> rewritten(line, method, cfg) == line,
        json::parsed_text(line) is None ==> rewritten(line, method, cfg) == line,
        keeps_tool_list(cfg) && method == "tools/list"@ ==> rewritten(line, method, cfg) == line,
        passes_through(cfg) ==> rewritten(line, method, cfg) == line,
{
}

/// The tool list that an agent sees, from what the engine lists: the wrapper
/// tools are added first, then the profile filters both kinds alike. A gateway
/// that shows the engine's own tool list adds and filters nothing.
pub open spec fn advertised_list(v: JsonView, cfg: GatewayCfg) -> Option<JsonView> {
    if keeps_tool_list(cfg) {
        if mcp_trim::tools_in(v) is Some {
            Some(v)
        } else {
            None
        }
    } else {
        match wrappers::injected(v, cfg.profile) {
            Some(w) => mcp_trim::trimmed_tools_list(w, cfg.profile, cfg.strip_desc),
            None => None,
        }
    }
}

/// The tool list that an agent sees, from what the engine lists; `None` where
/// `v` is no tool list.
pub fn advertise_tools(v: &Json, cfg: &GatewayCfg) -> (r: Option<Json>)
    ensures
        match r {
            Some(w) => advertised_list(v@, *cfg) == Some(w@),
            None => advertised_list(v@, *cfg) is None,
        },
{
    if cfg.keeps_list() {
        return if mcp_trim::tools_of(v).is_some() {
            Some(v.copy())
        } else {
            None
        };
    }
    match wrappers::inject_tools(v, cfg.profile) {
        Some(w) => mcp_trim::trim_tools_list(&w, cfg.profile, cfg.strip_desc),
        None => None,
    }
}

/// Every tool that an agent sees is one that the profile advertises.
pub proof fn agents_see_only_advertised_tools(v: JsonView, cfg: GatewayCfg, i: int)
    requires
        advertised_list(v, cfg) is Some,
        mcp_trim::tools_in(advertised_list(v, cfg)->0) is Some,
        0 <= i < mcp_trim::tools_in(advertised_list(v, cfg)->0)->0.len(),
    ensures
        mcp_trim::advertises(
            cfg.profile,
            mcp_trim::tool_name(mcp_trim::tools_in(advertised_list(v, cfg)->0)->0[i]),
        ),
{
    if !keeps_tool_list(cfg) {
        let w = wrappers::injected(v, cfg.profile)->0;
        let tools = mcp_trim::tools_in(w)->0;
        let kept = mcp_trim::advertised(tools, cfg.profile);
        let out = mcp_trim::all_stripped(kept, cfg.strip_desc);
        mcp_trim::replaced_tools_are_listed(w, out, out);
        mcp_trim::filtered_tools_are_advertised(tools, cfg.profile);
        assert(out[i] == mcp_trim::stripped(kept[i], cfg.strip_desc));
        mcp_trim::stripping_changes_the_description_alone(kept[i], cfg.strip_desc, "name"@);
    }
}

/// A tool that is listed and advertised stays listed.
proof fn lemma_advertised_stays(tools: Seq<JsonView>, profile: Profile, name: Seq<char>)
    requires
        wrappers::lists(tools, name),
        mcp_trim::advertises(profile, name),
    ensures
        wrappers::lists(mcp_trim::advertised(tools, profile), name),
    decreases tools.len(),
{
    let i = choose|i: int|
        0 <= i < tools.len() && json::str_field(#[trigger] tools[i], "name"@) == Some(name);
    let rest = tools.drop_last();
    let kept = mcp_trim::advertised(tools, profile);
    mcp_trim::lemma_advertised_push(rest, tools.last(), profile);
    assert(rest.push(tools.last()) =~= tools);
    if i == tools.len() - 1 {
        assert(kept[kept.len() - 1] == tools[i]);
    } else {
        assert(rest[i] == tools[i]);
        lemma_advertised_stays(rest, profile, name);
        let before = mcp_trim::advertised(rest, profile);
        let k = choose|k: int|
            0 <= k < before.len() && json::str_field(#[trigger] before[k], "name"@) == Some(name);
        assert(kept[k] == before[k]);
    }
}

/// Unless the gateway shows the engine's own tool list, an agent sees every
/// wrapper that the profile advertises.
pub proof fn agents_see_every_advertised_wrapper(
    v: JsonView,
    cfg: GatewayCfg,
    t: wrappers::PluginTool,
)
    requires
        !keeps_tool_list(cfg),
        mcp_trim::tools_in(v) is Some,
        mcp_trim::advertises(cfg.profile, wrappers::wire_name(t)),
    ensures
        advertised_list(v, cfg) matches Some(w) && (mcp_trim::tools_in(w) matches Some(tools)
            && wrappers::lists(tools, wrappers::wire_name(t))),
{
    let name = wrappers::wire_name(t);
    wrappers::injection_keeps_tools_and_lists_wrappers(v, cfg.profile, t);
    let w = wrappers::injected(v, cfg.profile)->0;
    let tools = mcp_trim::tools_in(w)->0;
    let kept = mcp_trim::advertised(tools, cfg.profile);
    let out = mcp_trim::all_stripped(kept, cfg.strip_desc);
    lemma_advertised_stays(tools, cfg.profile, name);
    let k = choose|k: int|
        0 <= k < kept.len() && json::str_field(#[trigger] kept[k], "name"@) == Some(name);
    mcp_trim::replaced_tools_are_listed(w, out, out);
    assert(out[k] == mcp_trim::stripped(kept[k], cfg.strip_desc));
    mcp_trim::stripping_changes_the_description_alone(kept[k], cfg.strip_desc, "name"@);
    reveal_strlit("name");
    reveal_strlit("description");
    assert("name"@.len() != "description"@.len());
    assert(json::str_field(out[k], "name"@) == Some(name));
}

/// The name of the tool that the parameters of a call name.
pub fn tools_call_name(params: &Json) -> (r: Option<&str>)
    ensures
        match r {
            Some(s) => json::str_field(params@, "name"@) == Some(s@),
            None => json::str_field(params@, "name"@) is None,
        },
{
    params.str_of("name")
}

/// A JSON-RPC response with a result.
pub open spec fn rpc_result(id: JsonView, result: JsonView) -> JsonView {
    JsonView::Obj(
        map!["jsonrpc"@ => JsonView::Str("2.0"@), "id"@ => id, "result"@ => result],
    )
}

fn build_result(id: &Json, result: Json) -> (r: Json)
    ensures
        r@ == rpc_result(id@, result@),
{
    Json::object().with("jsonrpc", Json::text("2.0")).with("id", id.copy()).with("result", result)
}

/// The response to a wrapper call is plain, where the identifier of the
/// request is.
proof fn lemma_response_is_plain(id: JsonView, content: Seq<char>, is_error: bool)
    requires
        json::plain(id, (json::DEPTH_LIMIT - 1) as nat),
    ensures
        json::plain(
            rpc_result(id, wrappers::call_envelope(content, is_error)),
            json::DEPTH_LIMIT as nat,
        ),
{
    let item = JsonView::Obj(
        map!["type"@ => JsonView::Str("text"@), "text"@ => JsonView::Str(content)],
    );
    let items = JsonView::Arr(seq![item]);
    let envelope = wrappers::call_envelope(content, is_error);
    reveal_with_fuel(json::plain, 2);
    reveal_strlit("$serde_json::private::RawValue");
    reveal_strlit("type");
    reveal_strlit("text");
    reveal_strlit("content");
    reveal_strlit("isError");
    reveal_strlit("jsonrpc");
    reveal_strlit("id");
    reveal_strlit("result");
    assert(json::RAW_TEXT_NAME@.len() == 30);
    assert(json::plain(item, 123));
    assert(json::plain(items, 124));
    assert(json::plain(envelope, 125));
    lemma_plain_deeper(envelope, 125);
}

/// What nests within a depth nests within a greater one.
proof fn lemma_plain_deeper(v: JsonView, depth: nat)
    requires
        json::plain(v, depth),
    ensures
        json::plain(v, depth + 1),
    decreases depth,
{
    match v {
        JsonView::Arr(a) => {
            assert forall|i: int| 0 <= i < a.len() implies json::plain(
                #[trigger] a[i],
                depth,
            ) by {
                lemma_plain_deeper(a[i], (depth - 1) as nat);
            }
        },
        JsonView::Obj(m) => {
            assert forall|k: Seq<char>| m.dom().contains(k) implies json::plain(
                #[trigger] m[k],
                depth,
            ) by {
                lemma_plain_deeper(m[k], (depth - 1) as nat);
            }
        },
        _ => {},
    }
}

/// The response line to a wrapper call that succeeded. An agent that reads
/// the line gets the response, and the text in it reads as `value`, where the
/// identifier and the value are plain.
pub fn plugin_success_response(id: &Json, value: &Json) -> (r: String)
    ensures
        r@ == json::rendered_text(
            rpc_result(id@, wrappers::call_envelope(json::rendered_text(value@), false)),
        ),
        json::plain(id@, (json::DEPTH_LIMIT - 1) as nat) ==> json::parsed_text(r@) == Some(
            rpc_result(id@, wrappers::call_envelope(json::rendered_text(value@), false)),
        ),
        json::plain(value@, json::DEPTH_LIMIT as nat) ==> json::parsed_text(
            json::rendered_text(value@),
        ) == Some(value@),
{
    proof {
        if json::plain(id@, (json::DEPTH_LIMIT - 1) as nat) {
            lemma_response_is_plain(id@, json::rendered_text(value@), false);
        }
    }
    json::render(&build_result(id, wrappers::wrap_call_result(value)))
}

/// The response line to a wrapper call that failed. The failure stands in the
/// result, since it is no fault of the protocol. An agent that reads the line
/// gets the response, where the identifier is plain.
pub fn plugin_handler_error_response(id: &Json, msg: &str) -> (r: String)
    ensures
        r@ == json::rendered_text(rpc_result(id@, wrappers::call_envelope(msg@, true))),
        json::plain(id@, (json::DEPTH_LIMIT - 1) as nat) ==> json::parsed_text(r@) == Some(
            rpc_result(id@, wrappers::call_envelope(msg@, true)),
        ),
{
    proof {
        if json::plain(id@, (json::DEPTH_LIMIT - 1) as nat) {
            lemma_response_is_plain(id@, msg@, true);
        }
    }
    json::render(&build_result(id, wrappers::wrap_call_error(msg)))
}

/// The response to a request that cannot be read.
pub open spec fn parse_error(message: Seq<char>) -> JsonView {
    JsonView::Obj(
        map![
            "jsonrpc"@ => JsonView::Str("2.0"@),
            "id"@ => JsonView::Null,
            "error"@ => JsonView::Obj(
                map![
                    "code"@ => JsonView::Int(-32700),
                    "message"@ => JsonView::Str("Parse error: "@ + message),
                ],
            ),
        ],
    )
}

/// The response line to a request that cannot be read. An agent that reads
/// the line gets the response.
pub fn parse_error_response(message: &str) -> (r: String)
    ensures
        r@ == json::rendered_text(parse_error(message@)),
        json::parsed_text(r@) == Some(parse_error(message@)),
{
    proof {
        let error = JsonView::Obj(
            map![
                "code"@ => JsonView::Int(-32700),
                "message"@ => JsonView::Str("Parse error: "@ + message@),
            ],
        );
        reveal_with_fuel(json::plain, 2);
        reveal_strlit("$serde_json::private::RawValue");
        reveal_strlit("code");
        reveal_strlit("message");
        reveal_strlit("jsonrpc");
        reveal_strlit("id");
        reveal_strlit("error");
        assert(json::RAW_TEXT_NAME@.len() == 30);
        assert(json::plain(error, 126));
        assert(json::plain(parse_error(message@), json::DEPTH_LIMIT as nat));
    }
    let error = Json::object().with("code", Json::Int(-32700)).with(
        "message",
        Json::Text(text::cat2("Parse error: ", message)),
    );
    json::render(
        &Json::object().with("jsonrpc", Json::text("2.0")).with("id", Json::Null).with(
            "error",
            error,
        ),
    )
}

/// Whether a line is blank, so that it holds no request.
pub fn is_blank(line: &str) -> (r: bool)
    ensures
        r == (text::trimmed(line@).len() == 0),
{
    text::chars_of(text::trim(line).as_str()).len() == 0
}

/// Whether a method is a notification, which has no response.
pub fn is_notification(method: &str) -> (r: bool)
    ensures
        r == (method@ == "initialized"@),
{
    text::same(method, "initialized")
}

/// The arguments of a call; null where it has none.
pub open spec fn call_arguments(params: JsonView) -> JsonView {
    match json::field(params, "arguments"@) {
        Some(v) => v,
        None => JsonView::Null,
    }
}

/// A call of a wrapper: its tool and its arguments.
pub struct WrapperCall {
    pub name: String,
    pub arguments: Json,
}

/// The wrapper call that a request makes, if it makes one.
pub open spec fn wrapper_call(
    method: Seq<char>,
    params: JsonView,
) -> Option<(Seq<char>, JsonView)> {
    if method == "tools/call"@ {
        match json::str_field(params, "name"@) {
            Some(name) => if wrappers::tool_named(name) is Some {
                Some((name, call_arguments(params)))
            } else {
                None
            },
            None => None,
        }
    } else {
        None
    }
}

/// Who answers a request: the cache or a wrapper's handler for a wrapper call
/// (returned with the decision), the engine for anything else.
pub fn route_request(cache: &mut WrapperCache, method: &str, params: &Json) -> (r: Option<
    (WrapperCall, Dispatch),
>)
    requires
        cache::sound(old(cache)@),
    ensures
        cache::sound(final(cache)@),
        match (wrapper_call(method@, params@), r) {
            (Some((name, arguments)), Some((call, d))) => call.name@ == name && call.arguments@
                == arguments && wrappers::decided(d, old(cache)@, name, arguments)
                && !(d is NotPlugin) && final(cache)@ == wrappers::cache_after_decision(
                old(cache)@,
                name,
                arguments,
            ),
            (None, None) => final(cache)@ == old(cache)@,
            _ => false,
        },
{
    if !text::same(method, "tools/call") {
        return None;
    }
    let name = match tools_call_name(params) {
        Some(n) => n,
        None => return None,
    };
    if wrappers::find_tool(name).is_none() {
        return None;
    }
    let arguments = match params.get("arguments") {
        Some(v) => v.copy(),
        None => Json::Null,
    };
    let d = wrappers::dispatch(cache, name, &arguments);
    Some((WrapperCall { name: name.to_string(), arguments }, d))
}

/// The envelope of what a handler returned.
pub open spec fn handler_envelope(result: Result<Json, String>) -> JsonView {
    match result {
        Ok(v) => wrappers::call_envelope(json::rendered_text(v@), false),
        Err(e) => wrappers::call_envelope(e@, true),
    }
}

/// The response line to a wrapper call, from what its handler returned. An
/// agent that reads the line gets the response, and the text in it reads as
/// the result, where the identifier and the result are plain.
pub fn wrapper_response(id: &Json, result: &Result<Json, String>) -> (r: String)
    ensures
        r@ == json::rendered_text(rpc_result(id@, handler_envelope(*result))),
        json::plain(id@, (json::DEPTH_LIMIT - 1) as nat) ==> json::parsed_text(r@) == Some(
            rpc_result(id@, handler_envelope(*result)),
        ),
        (*result matches Ok(v) && json::plain(v@, json::DEPTH_LIMIT as nat))
            ==> json::parsed_text(json::rendered_text(result->Ok_0@)) == Some(result->Ok_0@),
{
    match result {
        Ok(v) => plugin_success_response(id, v),
        Err(e) => plugin_handler_error_response(id, e.as_str()),
    }
}

/// A request: what it asks for, its identifier if it has one, and its parameters.
pub struct Request {
    pub method: String,
    pub id: Option<Json>,
    pub params: Json,
}

/// The identifier that the response to a request carries; null where the
/// request has none.
pub open spec fn response_id(request: Request) -> JsonView {
    match request.id {
        Some(id) => id@,
        None => JsonView::Null,
    }
}

/// A copy of the identifier that the response to a request carries.
fn copy_id(request: &Request) -> (r: Json)
    ensures
        r@ == response_id(*request),
{
    match &request.id {
        Some(id) => id.copy(),
        None => Json::Null,
    }
}

/// What a server does next for a request.
pub enum Step {
    /// It does nothing.
    Skip,
    /// It sends a line.
    Reply(String),
    /// It runs a wrapper, and finishes with what that returns.
    Run(PluginTool, WrapperCall),
    /// It hands the request to the engine, and rewrites the response.
    Engine,
}

/// Whether `step` is what a server does next for a request: a wrapper call
/// that the cache can answer is answered at once, any other wrapper call is
/// run, and every other request goes to the engine.
pub open spec fn is_answer(step: Step, c: cache::CacheView, request: Request) -> bool {
    match wrapper_call(request.method@, request.params@) {
        None => step is Engine,
        Some((name, arguments)) => match cache::found(c, cache::call_key(name, arguments)) {
            Some(v) => step matches Step::Reply(line) && line@ == json::rendered_text(
                rpc_result(
                    response_id(request),
                    wrappers::call_envelope(json::rendered_text(v), false),
                ),
            ),
            None => step matches Step::Run(tool, call) && wrappers::tool_named(name) == Some(tool)
                && call.name@ == name && call.arguments@ == arguments,
        },
    }
}

/// The cache after a request was looked at.
pub open spec fn cache_after_request(c: cache::CacheView, request: Request) -> cache::CacheView {
    match wrapper_call(request.method@, request.params@) {
        Some((name, arguments)) => wrappers::cache_after_decision(c, name, arguments),
        None => c,
    }
}

/// What a server does next for a request.
pub fn next_step(cache: &mut WrapperCache, request: &Request) -> (r: Step)
    requires
        cache::sound(old(cache)@),
    ensures
        cache::sound(final(cache)@),
        is_answer(r, old(cache)@, *request),
        final(cache)@ == cache_after_request(old(cache)@, *request),
{
    match route_request(cache, request.method.as_str(), &request.params) {
        Some((call, Dispatch::Run(tool))) => Step::Run(tool, call),
        Some((_, Dispatch::Ready(v))) => Step::Reply(
            plugin_success_response(&copy_id(request), &v),
        ),
        Some((_, Dispatch::NotPlugin)) => Step::Engine,
        None => Step::Engine,
    }
}

/// What a server on standard input does next for a line. `parsed` is the
/// request in the line, or what is wrong with the line. A blank line and a
/// notification get no response; a line that holds no request gets an error.
pub fn next_step_for_line(
    cache: &mut WrapperCache,
    line: &str,
    parsed: &Result<Request, String>,
) -> (r: Step)
    requires
        cache::sound(old(cache)@),
    ensures
        cache::sound(final(cache)@),
        text::trimmed(line@).len() == 0 ==> r is Skip && final(cache)@ == old(cache)@,
        text::trimmed(line@).len() > 0 ==> match *parsed {
            Err(e) => (r matches Step::Reply(s) && s@ == json::rendered_text(parse_error(e@)))
                && final(cache)@ == old(cache)@,
            Ok(request) => if request.method@ == "initialized"@ {
                r is Skip && final(cache)@ == old(cache)@
            } else {
                is_answer(r, old(cache)@, request) && final(cache)@ == cache_after_request(
                    old(cache)@,
                    request,
                )
            },
        },
{
    if is_blank(line) {
        return Step::Skip;
    }
    match parsed {
        Err(e) => Step::Reply(parse_error_response(e.as_str())),
        Ok(request) => if is_notification(request.method.as_str()) {
            Step::Skip
        } else {
            next_step(cache, request)
        },
    }
}

/// The response line to a request whose wrapper call was run, with the result
/// stored for later calls.
pub fn finish_call(
    cache: &mut WrapperCache,
    request: &Request,
    call: &WrapperCall,
    result: &Result<Json, String>,
) -> (r: String)
    requires
        cache::sound(old(cache)@),
    ensures
        cache::sound(final(cache)@),
        final(cache)@ == match *result {
            Ok(v) => cache::after_store(
                old(cache)@,
                cache::call_key(call.name@, call.arguments@),
                v@,
            ),
            Err(_) => old(cache)@,
        },
        r@ == json::rendered_text(rpc_result(response_id(*request), handler_envelope(*result))),
{
    wrappers::remember(cache, call.name.as_str(), &call.arguments, result);
    wrapper_response(&copy_id(request), result)
}

/// A request that repeats a wrapper call which succeeded gets the same
/// response as the first call with its identifier, straight from the cache,
/// where the cache is on.
pub proof fn repeated_call_gets_the_same_result(
    c: cache::CacheView,
    request: Request,
    value: JsonView,
    step: Step,
)
    requires
        cache::sound(c),
        c.cap > 0,
        wrapper_call(request.method@, request.params@) is Some,
        ({
            let (name, arguments) = wrapper_call(request.method@, request.params@)->0;
            is_answer(
                step,
                cache::after_store(c, cache::call_key(name, arguments), value),
                request,
            )
        }),
    ensures
        step matches Step::Reply(line) && line@ == json::rendered_text(
            rpc_result(
                response_id(request),
                wrappers::call_envelope(json::rendered_text(value), false),
            ),
        ),
{
}

} // verus!
