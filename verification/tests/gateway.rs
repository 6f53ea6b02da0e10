use heliosdb_codekb_mcp::cache::{set_cache_capacity, WrapperCache};
use heliosdb_codekb_mcp::config::ServeConfig;
use heliosdb_codekb_mcp::gateway::{
    advertise_tools, apply_gateway_rewrite, finish_call, gateway_settings, is_blank,
    is_notification, next_step, next_step_for_line, parse_error_response,
    plugin_handler_error_response, plugin_success_response, route_request, tools_call_name,
    wrapper_response, GatewayCfg, Request, Step,
};
use heliosdb_codekb_mcp::json;
use heliosdb_codekb_mcp::json::Json;
use heliosdb_codekb_mcp::mcp_trim::{tools_of, Profile, StripDescMode};
use heliosdb_codekb_mcp::wrappers::{remember, Dispatch, PluginTool};
use serde_json::Value;

fn read(text: &str) -> Json {
    json::parse(text).expect("JSON text")
}

fn value(text: &str) -> Value {
    serde_json::from_str(text).unwrap()
}

/// What an engine answers to `tools/list`.
fn engine_list() -> String {
    let mut tools: Vec<Json> = Vec::new();
    for (name, description) in [
        (
            "heliosdb_query",
            "Run a read-only SQL query against the embedded engine and return rows",
        ),
        ("heliosdb_insert", "Insert a row into a table of the embedded engine"),
        ("heliosdb_branch_create", "Create a branch of the database"),
        ("heliosdb_branch_list", "List the branches of the database"),
        ("heliosdb_branch_merge", "Merge a branch of the database"),
        ("heliosdb_time_travel", "Run a query at an earlier moment"),
        ("heliosdb_drop_table", "Drop a table of the database"),
        ("heliosdb_create_table", "Create a table in the database"),
        ("helios_lsp_definition", "Symbol definition lookup with ranking by hints"),
        ("helios_lsp_references", "References to a symbol"),
        ("helios_lsp_rename_apply", "Apply a rename across the reference set"),
    ] {
        tools.push(
            Json::object()
                .with("name", Json::text(name))
                .with("description", Json::text(description))
                .with("inputSchema", read(r#"{"type":"object"}"#)),
        );
    }
    let result = Json::object().with("tools", Json::array(tools));
    let body = Json::object()
        .with("jsonrpc", Json::text("2.0"))
        .with("id", Json::UInt(1))
        .with("result", result);
    json::render(&body)
}

fn settings(profile: &str, strip: &str) -> GatewayCfg {
    gateway_settings(Some(profile), Some(strip), &ServeConfig::default(), 0).unwrap()
}

fn list_raw(profile: &str, strip: &str) -> Value {
    let cfg = settings(profile, strip);
    value(&apply_gateway_rewrite(&engine_list(), "tools/list", &cfg))
}

fn list_tool_names(profile: &str, strip: &str) -> Vec<String> {
    list_raw(profile, strip)["result"]["tools"]
        .as_array()
        .expect("tools array")
        .iter()
        .map(|t| t["name"].as_str().expect("name").to_string())
        .collect()
}

#[test]
fn minimal_profile_drops_lsp_tools() {
    let names = list_tool_names("minimal", "none");
    assert!(
        names.iter().any(|n| n == "heliosdb_query"),
        "minimal should include heliosdb_query; got {names:?}"
    );
    assert!(
        !names.iter().any(|n| n.starts_with("helios_lsp_")),
        "minimal must not advertise helios_lsp_*; got {names:?}"
    );
    assert!(
        !names.iter().any(|n| n == "heliosdb_insert"),
        "minimal must not advertise heliosdb_insert; got {names:?}"
    );
}

#[test]
fn standard_profile_keeps_curated_set() {
    let names = list_tool_names("standard", "none");
    assert!(
        names.iter().any(|n| n == "helios_lsp_definition"),
        "standard should include helios_lsp_definition; got {names:?}"
    );
    assert!(
        names.iter().any(|n| n == "helios_lsp_references"),
        "standard should include helios_lsp_references; got {names:?}"
    );
    assert!(
        !names.iter().any(|n| n == "helios_lsp_rename_apply"),
        "standard must not advertise helios_lsp_rename_apply; got {names:?}"
    );
}

#[test]
fn full_profile_keeps_everything() {
    let full_names = list_tool_names("full", "none");
    let std_names = list_tool_names("standard", "none");
    assert!(
        full_names.len() > std_names.len(),
        "full ({}) should expose more tools than standard ({})",
        full_names.len(),
        std_names.len()
    );
}

#[test]
fn strip_caps_description_size() {
    let payload = list_raw("full", "32");
    let tools = payload["result"]["tools"].as_array().expect("tools array");
    for t in tools {
        let d = t["description"].as_str().unwrap_or("");
        assert!(
            d.len() <= 32,
            "description for {:?} too long ({} bytes): {d:?}",
            t["name"],
            d.len()
        );
        assert!(
            !d.contains("[+") && !d.contains("truncated"),
            "tool descriptions must not carry a truncation marker; got {d:?}"
        );
    }
}

#[test]
fn dispatch_still_works_for_filtered_tool() {
    assert!(!list_tool_names("minimal", "none")
        .iter()
        .any(|n| n == "helios_lsp_definition"));
    let mut cache = WrapperCache::new();
    let params = read(r#"{"name":"helios_lsp_definition","arguments":{"name":"x"}}"#);
    assert!(
        route_request(&mut cache, "tools/call", &params).is_none(),
        "the engine answers the call of its own tool"
    );
    let answer = r#"{"jsonrpc":"2.0","id":99,"result":{"content":[]}}"#;
    let cfg = settings("minimal", "none");
    assert_eq!(apply_gateway_rewrite(answer, "tools/call", &cfg), answer);
}

#[test]
fn full_passthrough_is_byte_identical_to_engine_default() {
    let cfg = settings("full", "none");
    assert!(cfg.is_passthrough());
    let out = apply_gateway_rewrite(&engine_list(), "tools/list", &cfg);
    assert_eq!(out, engine_list());
    let payload = value(&out);
    let tools = payload["result"]["tools"].as_array().expect("tools array");
    let helios_query = tools
        .iter()
        .find(|t| t["name"] == "heliosdb_query")
        .expect("heliosdb_query must be present under full profile");
    let desc = helios_query["description"].as_str().unwrap_or("");
    assert!(
        desc.len() > 32,
        "engine's heliosdb_query description should be the full text under passthrough; got {desc:?}"
    );
}

#[test]
fn flags_come_before_configured_values() {
    let configured = ServeConfig {
        profile: Some("minimal".to_string()),
        strip_tool_descriptions: Some("all".to_string()),
    };
    let cfg = gateway_settings(None, None, &configured, 9).unwrap();
    assert_eq!(cfg.profile, Profile::Minimal);
    assert_eq!(cfg.strip_desc, StripDescMode::All);
    assert_eq!(cfg.max_tool_result_bytes, 9);
    let cfg = gateway_settings(Some("full"), Some("5"), &configured, 0).unwrap();
    assert_eq!(cfg.profile, Profile::Full);
    assert_eq!(cfg.strip_desc, StripDescMode::ShortenTo(5));
    let cfg = gateway_settings(None, None, &ServeConfig::default(), 0).unwrap();
    assert_eq!(cfg.profile, Profile::Standard);
    assert_eq!(cfg.strip_desc, StripDescMode::ShortenTo(200));
    assert_eq!(
        gateway_settings(Some("huge"), None, &configured, 0).unwrap_err(),
        "invalid profile `huge` (expected minimal|standard|full)"
    );
    assert_eq!(
        gateway_settings(None, Some("some"), &configured, 0).unwrap_err(),
        "invalid --strip-tool-descriptions `some` (expected int|none|all)"
    );
}

#[test]
fn only_tool_results_are_trimmed() {
    let cfg = GatewayCfg {
        profile: Profile::Full,
        strip_desc: StripDescMode::Keep,
        max_tool_result_bytes: 4,
    };
    assert!(!cfg.is_passthrough());
    let line = r#"{"id":1,"result":{"text":"abcdefgh"}}"#;
    assert_eq!(
        value(&apply_gateway_rewrite(line, "tools/call", &cfg))["result"]["text"],
        "abcd…[+4 bytes truncated]"
    );
    assert_eq!(apply_gateway_rewrite(line, "initialize", &cfg), line);
    assert_eq!(apply_gateway_rewrite("junk", "tools/list", &cfg), "junk");
    assert!(cfg.keeps_list());
    assert_eq!(
        apply_gateway_rewrite(&engine_list(), "tools/list", &cfg),
        engine_list()
    );
}

#[test]
fn advertised_lists_hold_wrappers_and_allowed_tools() {
    let list = read(&engine_list());
    let out = advertise_tools(&list, &settings("minimal", "all")).unwrap();
    let names: Vec<&str> = tools_of(&out)
        .unwrap()
        .iter()
        .map(|t| t.str_of("name").unwrap())
        .collect();
    assert_eq!(
        names,
        vec![
            "heliosdb_query",
            "helios_repo_summary",
            "helios_outline_first",
            "helios_doc_drill",
            "helios_semantic_filter",
            "helios_symbol_card",
        ]
    );
    assert!(advertise_tools(&Json::Null, &settings("full", "all")).is_none());
    assert_eq!(
        json::render(&advertise_tools(&list, &settings("full", "none")).unwrap()),
        engine_list()
    );
    assert!(advertise_tools(&Json::Null, &settings("full", "none")).is_none());
}

#[test]
fn responses_carry_the_request_id() {
    let ok = value(&plugin_success_response(
        &Json::text("q1"),
        &read(r#"{"a":1}"#),
    ));
    assert_eq!(ok["jsonrpc"], "2.0");
    assert_eq!(ok["id"], "q1");
    assert_eq!(ok["result"]["isError"], false);
    assert_eq!(ok["result"]["content"][0]["type"], "text");
    assert_eq!(ok["result"]["content"][0]["text"], "{\"a\":1}");
    let bad = value(&plugin_handler_error_response(&Json::Null, "bang"));
    assert_eq!(bad["id"], Value::Null);
    assert_eq!(bad["result"]["isError"], true);
    assert_eq!(bad["result"]["content"][0]["text"], "bang");
    assert!(bad.get("error").is_none());
    assert_eq!(
        wrapper_response(&Json::UInt(3), &Err("bang".to_string())),
        plugin_handler_error_response(&Json::UInt(3), "bang")
    );
    let parse = value(&parse_error_response("EOF"));
    assert_eq!(parse["error"]["code"], -32700);
    assert_eq!(parse["error"]["message"], "Parse error: EOF");
    assert_eq!(parse["id"], Value::Null);
}

#[test]
fn requests_are_sorted_out() {
    assert!(is_blank(" \t "));
    assert!(!is_blank(" {} "));
    assert!(is_notification("initialized"));
    assert!(!is_notification("initialize"));
    assert_eq!(tools_call_name(&read(r#"{"name":"x"}"#)), Some("x"));
    assert_eq!(tools_call_name(&read(r#"{"name":1}"#)), None);

    let mut cache = WrapperCache::new();
    set_cache_capacity(&mut cache, 8);
    let params = read(r#"{"name":"helios_doc_drill","arguments":{"section_id":3}}"#);
    assert!(route_request(&mut cache, "tools/list", &params).is_none());
    let (call, decision) = route_request(&mut cache, "tools/call", &params).unwrap();
    assert_eq!(call.name, "helios_doc_drill");
    assert_eq!(json::render(&call.arguments), r#"{"section_id":3}"#);
    assert!(matches!(decision, Dispatch::Run(PluginTool::DocDrill)));
    remember(&mut cache, &call.name, &call.arguments, &Ok(Json::Bool(true)));
    match route_request(&mut cache, "tools/call", &params) {
        Some((_, Dispatch::Ready(v))) => assert!(matches!(v, Json::Bool(true))),
        _ => panic!("the result is remembered"),
    }
    let (call, _) =
        route_request(&mut cache, "tools/call", &read(r#"{"name":"helios_ask"}"#)).unwrap();
    assert!(matches!(call.arguments, Json::Null));
}

fn request(method: &str, id: Option<Json>, params: &str) -> Request {
    Request {
        method: method.to_string(),
        id,
        params: read(params),
    }
}

#[test]
fn wrapper_calls_are_run_once() {
    let mut cache = WrapperCache::new();
    set_cache_capacity(&mut cache, 8);
    let params = r#"{"name":"helios_outline_first","arguments":{"query":"x"}}"#;
    let first = request("tools/call", Some(Json::UInt(1)), params);
    let call = match next_step(&mut cache, &first) {
        Step::Run(PluginTool::OutlineFirst, call) => call,
        _ => panic!("the wrapper is run"),
    };
    let result = Ok(read(r#"{"sections":[]}"#));
    let line = finish_call(&mut cache, &first, &call, &result);
    assert_eq!(value(&line)["id"], 1);
    assert_eq!(
        value(&line)["result"]["content"][0]["text"],
        r#"{"sections":[]}"#
    );
    let again = request("tools/call", None, params);
    match next_step(&mut cache, &again) {
        Step::Reply(line) => {
            assert_eq!(value(&line)["id"], Value::Null);
            assert_eq!(
                value(&line)["result"]["content"][0]["text"],
                r#"{"sections":[]}"#
            );
        }
        _ => panic!("the result is remembered"),
    }
    let other = request("tools/call", None, r#"{"name":"heliosdb_query"}"#);
    assert!(matches!(next_step(&mut cache, &other), Step::Engine));
    let list = request("tools/list", None, "{}");
    assert!(matches!(next_step(&mut cache, &list), Step::Engine));
}

#[test]
fn failed_calls_are_run_again() {
    let mut cache = WrapperCache::new();
    set_cache_capacity(&mut cache, 8);
    let params = r#"{"name":"helios_doc_drill","arguments":{"section_id":3}}"#;
    let req = request("tools/call", None, params);
    for _ in 0..2 {
        let call = match next_step(&mut cache, &req) {
            Step::Run(PluginTool::DocDrill, call) => call,
            _ => panic!("the wrapper is run"),
        };
        let line = finish_call(&mut cache, &req, &call, &Err("no section".to_string()));
        assert_eq!(value(&line)["result"]["isError"], true);
    }
}

#[test]
fn lines_without_requests_are_sorted_out() {
    let mut cache = WrapperCache::new();
    let bad = Err("expected value".to_string());
    assert!(matches!(
        next_step_for_line(&mut cache, "  ", &bad),
        Step::Skip
    ));
    match next_step_for_line(&mut cache, "{", &bad) {
        Step::Reply(line) => {
            assert_eq!(value(&line)["error"]["code"], -32700);
            assert_eq!(
                value(&line)["error"]["message"],
                "Parse error: expected value"
            );
        }
        _ => panic!("the line gets an error"),
    }
    let note = Ok(request("initialized", None, "{}"));
    assert!(matches!(
        next_step_for_line(&mut cache, "{}", &note),
        Step::Skip
    ));
    let init = Ok(request("initialize", None, "{}"));
    assert!(matches!(
        next_step_for_line(&mut cache, "{}", &init),
        Step::Engine
    ));
}
