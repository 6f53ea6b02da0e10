use heliosdb_codekb_mcp::cache::{cache_stats, set_cache_capacity, WrapperCache};
use heliosdb_codekb_mcp::cells::Cell;
use heliosdb_codekb_mcp::docs::{outline_first_handler, SectionHit};
use heliosdb_codekb_mcp::gateway::{route_request, wrapper_response};
use heliosdb_codekb_mcp::json;
use heliosdb_codekb_mcp::json::Json;
use heliosdb_codekb_mcp::mcp_trim::{wrapper_tool_names, Profile};
use heliosdb_codekb_mcp::repo_summary::{repo_summary_handler, FileCards, FileRow};
use heliosdb_codekb_mcp::symbol_card::{symbol_card_handler, SymbolLookup};
use heliosdb_codekb_mcp::wrappers::{
    descriptor, dispatch, dispatch_mega, find_tool, inject_into_tools_list, inject_tools,
    is_plugin_tool, list_actions_payload, mega_tool_descriptor, plugin_action_names, plugin_tools,
    remember, resolve_action_name, wrap_call_error, wrap_call_result, Dispatch, PluginTool,
    MEGA_TOOL_NAME,
};
use serde_json::Value;

fn read(text: &str) -> Json {
    json::parse(text).expect("JSON text")
}

fn value(text: &str) -> Value {
    serde_json::from_str(text).unwrap()
}

/// The response of a gateway to a call of the wrapper `name`, with what the
/// handler says for the arguments of the call.
fn call(name: &str, args: &str, handler: fn(&Json) -> Result<Json, String>) -> Value {
    let mut cache = WrapperCache::new();
    let params = Json::object()
        .with("name", Json::text(name))
        .with("arguments", read(args));
    let (call, decision) = route_request(&mut cache, "tools/call", &params).unwrap();
    assert!(matches!(decision, Dispatch::Run(_)));
    value(&wrapper_response(&Json::UInt(1), &handler(&call.arguments)))
}

#[test]
fn plugin_tools_match_mcp_trim_wrapper_names() {
    let here: std::collections::HashSet<&str> = plugin_tools().iter().map(|t| t.name).collect();
    let other: std::collections::HashSet<&str> = wrapper_tool_names().iter().copied().collect();
    assert_eq!(
        here, other,
        "plugin_tools() and mcp_trim::wrapper_tool_names() must list the same names"
    );
}

#[test]
fn each_tool_has_valid_schema() {
    for t in plugin_tools() {
        let s = json::to_value(&t.input_schema());
        assert_eq!(
            s["type"], "object",
            "{}: schema type must be object",
            t.name
        );
        assert!(
            s.get("properties").is_some(),
            "{}: schema needs `properties`",
            t.name
        );
    }
}

#[test]
fn inject_appends_plugin_tools() {
    let engine_resp = r#"{"jsonrpc":"2.0","id":1,"result":{"tools":[{"name":"heliosdb_query","description":"sql","inputSchema":{"type":"object"}}]}}"#;
    let merged = inject_into_tools_list(engine_resp, Profile::Standard);
    let v = value(&merged);
    let names: Vec<&str> = v["result"]["tools"]
        .as_array()
        .unwrap()
        .iter()
        .map(|t| t["name"].as_str().unwrap())
        .collect();
    assert!(names.contains(&"heliosdb_query"));
    for w in wrapper_tool_names() {
        assert!(names.contains(&w), "missing wrapper {w}");
    }
}

#[test]
fn inject_is_idempotent() {
    let engine_resp = r#"{"jsonrpc":"2.0","id":1,"result":{"tools":[]}}"#;
    let once = inject_into_tools_list(engine_resp, Profile::Standard);
    let twice = inject_into_tools_list(&once, Profile::Standard);
    let v = value(&twice);
    let count = v["result"]["tools"].as_array().unwrap().len();
    assert_eq!(
        count,
        wrapper_tool_names().len(),
        "double-injection should not duplicate plugin tools"
    );
}

#[test]
fn inject_skips_when_not_tools_list_shape() {
    let other = r#"{"jsonrpc":"2.0","id":1,"result":{"content":[]}}"#;
    let out = inject_into_tools_list(other, Profile::Standard);
    assert_eq!(out, other, "non-tools/list shapes must pass through");
}

#[test]
fn injection_follows_the_profile() {
    let v = read(r#"{"result":{"tools":[{"name":"helios_doc_drill","description":"mine"}]}}"#);
    let out = json::to_value(&inject_tools(&v, Profile::Minimal).unwrap());
    let tools = out["result"]["tools"].as_array().unwrap();
    let names: Vec<&str> = tools.iter().map(|t| t["name"].as_str().unwrap()).collect();
    assert_eq!(
        names,
        vec![
            "helios_doc_drill",
            "helios_repo_summary",
            "helios_outline_first",
            "helios_semantic_filter",
            "helios_symbol_card",
        ]
    );
    assert_eq!(tools[0]["description"], "mine");
    assert!(inject_tools(&Json::Null, Profile::Minimal).is_none());
}

#[test]
fn dispatch_returns_none_for_engine_tool() {
    let mut cache = WrapperCache::new();
    let r = dispatch(&mut cache, "heliosdb_query", &read(r#"{"sql": "SELECT 1"}"#));
    assert!(
        matches!(r, Dispatch::NotPlugin),
        "engine tool name must not match plugin dispatch"
    );
}

#[test]
fn dispatch_routes_symbol_card_call() {
    let mut cache = WrapperCache::new();
    let args = read(r#"{"qualified_name": "nonexistent"}"#);
    let r = dispatch(&mut cache, "helios_symbol_card", &args);
    assert!(
        matches!(r, Dispatch::Run(PluginTool::SymbolCard)),
        "plugin name must be dispatched"
    );
    let payload = symbol_card_handler(&args, &SymbolLookup::NotBuilt).unwrap();
    assert_eq!(payload.str_of("status").unwrap(), "not_found");
    let payload = symbol_card_handler(&args, &SymbolLookup::Missing).unwrap();
    assert_eq!(payload.str_of("status").unwrap(), "not_found");
}

#[test]
fn wrap_envelopes() {
    let ok = json::to_value(&wrap_call_result(&read(r#"{"a": 1}"#)));
    assert_eq!(ok["isError"], false);
    assert!(ok["content"][0]["text"]
        .as_str()
        .unwrap()
        .contains("\"a\":1"));
    let err = json::to_value(&wrap_call_error("bang"));
    assert_eq!(err["isError"], true);
    assert_eq!(err["content"][0]["text"], "bang");
}

#[test]
fn all_plugin_wrappers_appear_in_tools_list() {
    let engine_resp =
        r#"{"jsonrpc":"2.0","id":1,"result":{"tools":[{"name":"heliosdb_query"}]}}"#;
    let cfg = heliosdb_codekb_mcp::gateway::GatewayCfg {
        profile: Profile::Standard,
        strip_desc: heliosdb_codekb_mcp::mcp_trim::StripDescMode::Keep,
        max_tool_result_bytes: 0,
    };
    let out =
        heliosdb_codekb_mcp::gateway::apply_gateway_rewrite(engine_resp, "tools/list", &cfg);
    let resp = value(&out);
    let names: Vec<&str> = resp["result"]["tools"]
        .as_array()
        .expect("tools array")
        .iter()
        .map(|t| t["name"].as_str().expect("name"))
        .collect();
    for w in [
        "helios_repo_summary",
        "helios_outline_first",
        "helios_doc_drill",
        "helios_semantic_filter",
        "helios_git_summary",
        "helios_symbol_card",
    ] {
        assert!(
            names.contains(&w),
            "plugin wrapper {w} missing from tools/list under --profile standard; got {names:?}"
        );
    }
}

#[test]
fn helios_repo_summary_returns_envelope() {
    for handler in [
        (|args: &Json| repo_summary_handler(args, &FileCards::NotBuilt))
            as fn(&Json) -> Result<Json, String>,
        |args: &Json| {
            let rows = vec![FileRow {
                path: Cell::Text("a.rs".to_string()),
                pagerank: json::parse("0.5").unwrap(),
                top_symbols: Cell::Text("[]".to_string()),
            }];
            repo_summary_handler(args, &FileCards::Rows(rows))
        },
    ] {
        let resp = call("helios_repo_summary", r#"{"detail": "minimal"}"#, handler);
        let content_text = resp["result"]["content"][0]["text"]
            .as_str()
            .expect("text content");
        let inner = value(content_text);
        assert!(
            inner.get("files").is_some() || inner["status"] == "cards_not_built",
            "unexpected helios_repo_summary shape: {inner}"
        );
    }
}

#[test]
fn helios_symbol_card_handles_missing_symbol_gracefully() {
    let resp = call(
        "helios_symbol_card",
        r#"{"qualified_name": "totally_not_a_real_symbol"}"#,
        |args| symbol_card_handler(args, &SymbolLookup::Missing),
    );
    let content_text = resp["result"]["content"][0]["text"]
        .as_str()
        .expect("text content");
    let inner = value(content_text);
    assert_eq!(
        inner["status"], "not_found",
        "missing symbol should yield status=not_found; got {inner}"
    );
    assert!(
        resp.get("error").is_none(),
        "should NOT emit a JSON-RPC error frame for a not-found symbol"
    );
}

#[test]
fn helios_outline_first_returns_sections_array() {
    let resp = call("helios_outline_first", r#"{"query": "Sample"}"#, |args| {
        let hits = vec![SectionHit {
            node_id: Json::UInt(7),
            title: Json::text("Sample"),
            text: Some("A tiny crate.\nMore.".to_string()),
            source_ref: Json::text("README.md"),
        }];
        outline_first_handler(args, &Ok(hits))
    });
    let content_text = resp["result"]["content"][0]["text"]
        .as_str()
        .expect("text content");
    let inner = value(content_text);
    let sections = inner["sections"].as_array().expect("sections array");
    assert_eq!(sections.len(), 1);
    assert_eq!(sections[0]["summary"], "A tiny crate.");
}

#[test]
fn tools_are_found_by_name() {
    for t in plugin_tools() {
        assert_eq!(find_tool(t.name), Some(t.tool));
        assert!(is_plugin_tool(t.name));
        assert_eq!(descriptor(t.tool).description, t.description);
    }
    assert_eq!(find_tool("helios_lsp_definition"), None);
    assert!(!is_plugin_tool(""));
}

#[test]
fn schemas_name_their_required_arguments() {
    let wanted = [
        (PluginTool::Ask, "question"),
        (PluginTool::OutlineFirst, "query"),
        (PluginTool::DocDrill, "section_id"),
        (PluginTool::SemanticFilter, "query"),
        (PluginTool::SymbolCard, "qualified_name"),
        (PluginTool::GitSummary, "commit_a"),
    ];
    for (tool, key) in wanted {
        let s = json::to_value(&descriptor(tool).input_schema());
        assert_eq!(s["required"][0], key);
        assert!(s["properties"].get(key).is_some());
    }
}

#[test]
fn actions_resolve_to_tools() {
    assert_eq!(
        plugin_action_names(),
        vec![
            "ask",
            "repo_summary",
            "outline_first",
            "doc_drill",
            "semantic_filter",
            "git_summary",
            "symbol_card",
        ]
    );
    for action in plugin_action_names() {
        let name = resolve_action_name(&action).unwrap();
        assert_eq!(name, format!("helios_{action}"));
        assert!(is_plugin_tool(name));
    }
    assert_eq!(resolve_action_name("query"), Some("heliosdb_query"));
    assert_eq!(
        resolve_action_name("lsp_definition"),
        Some("helios_lsp_definition")
    );
    assert_eq!(resolve_action_name("no_such_action"), None);
}

#[test]
fn single_tool_lists_its_actions() {
    let d = json::to_value(&mega_tool_descriptor());
    assert_eq!(d["name"], MEGA_TOOL_NAME);
    assert!(d["description"]
        .as_str()
        .unwrap()
        .contains("ask, repo_summary, outline_first, doc_drill, semantic_filter, git_summary, symbol_card;"));
    assert_eq!(d["inputSchema"]["required"][0], "action");

    let mut cache = WrapperCache::new();
    let listed = match dispatch_mega(&mut cache, "list_actions", &Json::Null) {
        Dispatch::Ready(v) => v,
        _ => panic!("the catalogue is answered at once"),
    };
    assert_eq!(
        json::render(&listed),
        json::render(&list_actions_payload())
    );
    let entries = listed.items_of("actions").unwrap();
    assert_eq!(entries[0].str_of("action").unwrap(), "ask");
    assert_eq!(entries[7].str_of("action").unwrap(), "query");
    assert_eq!(
        entries[7].str_of("input_schema").unwrap(),
        "see engine tool"
    );
    assert!(matches!(
        dispatch_mega(&mut cache, "doc_drill", &Json::Null),
        Dispatch::Run(PluginTool::DocDrill)
    ));
    assert!(matches!(
        dispatch_mega(&mut cache, "query", &Json::Null),
        Dispatch::NotPlugin
    ));
    assert!(matches!(
        dispatch_mega(&mut cache, "bogus", &Json::Null),
        Dispatch::NotPlugin
    ));
}

#[test]
fn remembered_results_answer_later_calls() {
    let mut cache = WrapperCache::new();
    set_cache_capacity(&mut cache, 4);
    let args = read(r#"{"query":"x"}"#);
    let result = Ok(read(r#"{"sections":[]}"#));
    assert!(matches!(
        dispatch(&mut cache, "helios_outline_first", &args),
        Dispatch::Run(PluginTool::OutlineFirst)
    ));
    remember(&mut cache, "helios_outline_first", &args, &result);
    match dispatch(&mut cache, "helios_outline_first", &args) {
        Dispatch::Ready(v) => assert_eq!(json::render(&v), r#"{"sections":[]}"#),
        _ => panic!("the result is remembered"),
    }
    assert!(matches!(
        dispatch(&mut cache, "helios_outline_first", &read(r#"{"query":"y"}"#)),
        Dispatch::Run(_)
    ));
    remember(
        &mut cache,
        "helios_doc_drill",
        &args,
        &Err("no such section".to_string()),
    );
    assert!(matches!(
        dispatch(&mut cache, "helios_doc_drill", &args),
        Dispatch::Run(_)
    ));
    assert_eq!(cache_stats(&cache), (1, 3, 1, 4));
}

fn looked_up(cache: &mut WrapperCache, args: &Json) -> Option<String> {
    cache
        .get("t", args)
        .map(|v| v.as_str().expect("a string").to_string())
}

#[test]
fn least_recently_used_result_leaves() {
    let mut cache = WrapperCache::new();
    set_cache_capacity(&mut cache, 2);
    let (a, b, c) = (Json::UInt(1), Json::UInt(2), Json::UInt(3));
    cache.put("t", &a, &Json::text("a"));
    cache.put("t", &b, &Json::text("b"));
    assert_eq!(looked_up(&mut cache, &a), Some("a".to_string()));
    cache.put("t", &c, &Json::text("c"));
    assert_eq!(looked_up(&mut cache, &b), None);
    assert_eq!(looked_up(&mut cache, &a), Some("a".to_string()));
    assert_eq!(looked_up(&mut cache, &c), Some("c".to_string()));
    cache.put("t", &c, &Json::text("newer"));
    assert_eq!(looked_up(&mut cache, &c), Some("newer".to_string()));
    assert_eq!(cache_stats(&cache), (4, 1, 2, 2));
}

#[test]
fn cache_without_capacity_holds_nothing() {
    let mut cache = WrapperCache::new();
    set_cache_capacity(&mut cache, 0);
    cache.put("t", &Json::Null, &Json::text("a"));
    assert_eq!(looked_up(&mut cache, &Json::Null), None);
    assert_eq!(cache_stats(&cache), (0, 0, 0, 0));
}

#[test]
fn calls_have_stable_keys() {
    let none = Json::Null;
    assert_eq!(WrapperCache::key("a", &none), WrapperCache::key("a", &none));
    assert_ne!(WrapperCache::key("a", &none), WrapperCache::key("b", &none));
    assert_ne!(
        WrapperCache::key("a", &none),
        WrapperCache::key("a", &Json::Bool(true))
    );
}
