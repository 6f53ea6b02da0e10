use heliosdb_codekb_mcp::json;
use heliosdb_codekb_mcp::json::Json;
use heliosdb_codekb_mcp::mcp_trim::{
    replace_tools, tools_of, trim_rpc_response, trim_rpc_response_wire, trim_tools_list,
    trim_tools_list_wire, trim_value, wrapper_tool_names, Profile, StripDescMode,
};
use serde_json::Value;

fn read(text: &str) -> Json {
    json::parse(text).expect("JSON text")
}

fn value(text: &str) -> Value {
    serde_json::from_str(text).unwrap()
}

fn field(key: &str, text: &str) -> Json {
    Json::object().with(key, Json::text(text))
}

#[test]
fn short_strings_pass_through() {
    let mut v = read(r#"{ "a": "hi", "b": ["ok", "fine"] }"#);
    trim_value(&mut v, 100);
    assert_eq!(
        json::to_value(&v),
        value(r#"{ "a": "hi", "b": ["ok", "fine"] }"#)
    );
}

#[test]
fn long_string_truncated_with_marker() {
    let mut v = field("body", &"x".repeat(5000));
    trim_value(&mut v, 100);
    let trimmed = v.str_of("body").unwrap();
    assert!(trimmed.starts_with(&"x".repeat(100)));
    assert!(trimmed.contains("[+4900 bytes truncated]"));
}

#[test]
fn nested_array_of_objects_recursed() {
    let body = "y".repeat(3000);
    let hits = Json::array(vec![field("text", &body), field("text", &body)]);
    let mut v = Json::object().with("hits", hits);
    trim_value(&mut v, 200);
    for hit in v.items_of("hits").unwrap() {
        let t = hit.str_of("text").unwrap();
        assert!(t.len() < body.len());
        assert!(t.contains("[+2800 bytes truncated]"));
    }
}

#[test]
fn multibyte_safe() {
    let mut v = field("x", "💰💰💰💰💰");
    trim_value(&mut v, 9);
    let out = v.str_of("x").unwrap();
    assert!(out.starts_with("💰💰"));
    assert!(out.contains("[+"));
}

#[test]
fn cut_strings_account_for_every_byte() {
    let mut v = Json::text("💰💰💰💰💰");
    trim_value(&mut v, 9);
    assert_eq!(v.as_str().unwrap(), "💰💰…[+12 bytes truncated]");
    let mut v = Json::text("abcdef");
    trim_value(&mut v, 6);
    assert_eq!(v.as_str().unwrap(), "abcdef");
    trim_value(&mut v, 5);
    assert_eq!(v.as_str().unwrap(), "abcde…[+1 bytes truncated]");
}

#[test]
fn wire_form_skips_non_result_methods() {
    let req = r#"{"jsonrpc":"2.0","id":1,"result":{"tools":[{"name":"helios_x","description":"AAAAA"}]}}"#;
    let out = trim_rpc_response_wire(req, 3);
    let parsed = value(&out);
    assert_eq!(parsed["jsonrpc"], "2.0");
    assert_eq!(parsed["id"], 1);
    let desc = parsed["result"]["tools"][0]["description"].as_str().unwrap();
    assert!(desc.starts_with("AAA"));
    assert!(desc.contains("[+"));
}

#[test]
fn no_trim_when_max_bytes_is_zero_or_max() {
    let req = r#"{"jsonrpc":"2.0","id":1,"result":{"x":"hellohello"}}"#;
    assert_eq!(trim_rpc_response_wire(req, 0), req);
    assert_eq!(trim_rpc_response_wire(req, usize::MAX), req);
}

#[test]
fn only_the_result_is_trimmed() {
    let v = read(r#"{"id":"longer than four","error":{"message":"a long message"}}"#);
    assert_eq!(
        json::to_value(&trim_rpc_response(&v, 4)),
        json::to_value(&v)
    );
    let v = read(r#"{"id":"longer than four","result":["a long message"]}"#);
    assert_eq!(
        json::to_value(&trim_rpc_response(&v, 4)),
        value(r#"{"id":"longer than four","result":["a lo…[+10 bytes truncated]"]}"#)
    );
    assert_eq!(trim_rpc_response_wire("not json at all", 3), "not json at all");
}

#[test]
fn profile_parse_round_trip() {
    for s in ["minimal", "standard", "full"] {
        assert_eq!(Profile::parse(s).unwrap().as_str(), s);
    }
    assert!(Profile::parse("bogus").is_err());
}

#[test]
fn profile_allow_lists_are_self_consistent() {
    let minimal_keeps: &[&str] = &[
        "helios_repo_summary",
        "helios_outline_first",
        "helios_doc_drill",
        "helios_semantic_filter",
        "helios_symbol_card",
    ];
    for w in wrapper_tool_names() {
        assert!(Profile::Standard.allows(w), "Standard should allow {w}");
        assert!(Profile::Full.allows(w), "Full should allow {w}");
        if minimal_keeps.contains(&w) {
            assert!(Profile::Minimal.allows(w), "Minimal should allow {w}");
        } else {
            assert!(
                !Profile::Minimal.allows(w),
                "Minimal should NOT allow {w} (heavy / out-of-scope for minimal profile)"
            );
        }
    }
    assert!(Profile::Full.allows("totally_made_up"));
    assert!(!Profile::Minimal.allows("helios_lsp_definition"));
    assert!(Profile::Standard.allows("helios_lsp_definition"));
    assert!(!Profile::Standard.allows("helios_lsp_rename_apply"));
    assert!(!Profile::Standard.allows("heliosdb_insert"));
}

#[test]
fn strip_mode_parses_int_none_all() {
    assert_eq!(StripDescMode::parse("none").unwrap(), StripDescMode::Keep);
    assert_eq!(StripDescMode::parse("all").unwrap(), StripDescMode::All);
    assert_eq!(
        StripDescMode::parse("200").unwrap(),
        StripDescMode::ShortenTo(200)
    );
    assert!(StripDescMode::parse("nope").is_err());
}

#[test]
fn bad_settings_are_named() {
    assert_eq!(
        Profile::parse("bogus").unwrap_err(),
        "invalid profile `bogus` (expected minimal|standard|full)"
    );
    assert_eq!(
        StripDescMode::parse("-1").unwrap_err(),
        "invalid --strip-tool-descriptions `-1` (expected int|none|all)"
    );
    assert!(StripDescMode::parse("99999999999999999999999").is_err());
    assert!(StripDescMode::parse("").is_err());
    assert_eq!(
        StripDescMode::parse("+7").unwrap(),
        StripDescMode::ShortenTo(7)
    );
}

fn sample_list_resp() -> String {
    let mut tools: Vec<Json> = Vec::new();
    for (name, description) in [
        (
            "helios_lsp_definition",
            "LSP-style definition lookup with hint-based ranking — returns Vec<DefinitionRow>",
        ),
        (
            "helios_lsp_rename_apply",
            "Apply a rename across the symbol's reference set",
        ),
        (
            "heliosdb_query",
            "Run a read-only SQL query against the embedded engine",
        ),
        (
            "helios_repo_summary",
            "Plugin: compressed repo overview (pre-computed at ingest)",
        ),
    ] {
        tools.push(
            Json::object()
                .with("name", Json::text(name))
                .with("description", Json::text(description))
                .with("inputSchema", field("type", "object")),
        );
    }
    let result = Json::object().with("tools", Json::array(tools));
    let body = Json::object()
        .with("jsonrpc", Json::text("2.0"))
        .with("id", Json::UInt(1))
        .with("result", result);
    json::render(&body)
}

#[test]
fn list_strips_descriptions_per_profile() {
    let resp = sample_list_resp();
    let out = trim_tools_list_wire(&resp, Profile::Standard, StripDescMode::ShortenTo(20));
    let parsed = value(&out);
    let tools = parsed["result"]["tools"].as_array().unwrap();
    let names: Vec<&str> = tools.iter().map(|t| t["name"].as_str().unwrap()).collect();
    assert!(names.contains(&"helios_lsp_definition"));
    assert!(names.contains(&"heliosdb_query"));
    assert!(names.contains(&"helios_repo_summary"));
    assert!(!names.contains(&"helios_lsp_rename_apply"));
    for t in tools {
        let d = t["description"].as_str().unwrap();
        assert!(d.len() <= 20, "description too long: {d:?}");
        assert!(!d.contains("[+"));
    }
    for t in tools {
        assert!(t.get("inputSchema").is_some());
    }
}

#[test]
fn list_filter_minimal_keeps_only_allowlist() {
    let resp = sample_list_resp();
    let out = trim_tools_list_wire(&resp, Profile::Minimal, StripDescMode::Keep);
    let parsed = value(&out);
    let names: Vec<&str> = parsed["result"]["tools"]
        .as_array()
        .unwrap()
        .iter()
        .map(|t| t["name"].as_str().unwrap())
        .collect();
    assert!(names.contains(&"heliosdb_query"));
    assert!(names.contains(&"helios_repo_summary"));
    assert!(!names.contains(&"helios_lsp_definition"));
    assert!(!names.contains(&"helios_lsp_rename_apply"));
}

#[test]
fn list_full_is_passthrough() {
    let resp = sample_list_resp();
    let out = trim_tools_list_wire(&resp, Profile::Full, StripDescMode::Keep);
    assert_eq!(out, resp);
}

#[test]
fn list_strip_all_empties_descriptions() {
    let resp = sample_list_resp();
    let out = trim_tools_list_wire(&resp, Profile::Full, StripDescMode::All);
    let parsed = value(&out);
    for t in parsed["result"]["tools"].as_array().unwrap() {
        assert_eq!(t["description"].as_str().unwrap(), "");
    }
}

#[test]
fn list_invalid_json_passthrough() {
    let garbage = "{ not json";
    assert_eq!(
        trim_tools_list_wire(garbage, Profile::Minimal, StripDescMode::ShortenTo(10)),
        garbage
    );
}

#[test]
fn list_shortens_at_char_boundary() {
    let tool = field("name", "heliosdb_query").with("description", Json::text("💰💰💰💰💰 cap"));
    let result = Json::object().with("tools", Json::array(vec![tool]));
    let body = Json::object()
        .with("jsonrpc", Json::text("2.0"))
        .with("id", Json::UInt(1))
        .with("result", result);
    let line = json::render(&body);
    let out = trim_tools_list_wire(&line, Profile::Full, StripDescMode::ShortenTo(9));
    let parsed = value(&out);
    let d = parsed["result"]["tools"][0]["description"]
        .as_str()
        .unwrap();
    assert!(d.starts_with("💰💰"));
    assert!(d.len() <= 9);
}

#[test]
fn list_trimming_twice_changes_nothing() {
    let v = read(&sample_list_resp());
    let once = trim_tools_list(&v, Profile::Minimal, StripDescMode::ShortenTo(12)).unwrap();
    let twice = trim_tools_list(&once, Profile::Minimal, StripDescMode::ShortenTo(12)).unwrap();
    assert_eq!(json::to_value(&once), json::to_value(&twice));
    let names: Vec<&str> = tools_of(&twice)
        .unwrap()
        .iter()
        .map(|t| t.str_of("name").unwrap())
        .collect();
    assert_eq!(names, vec!["heliosdb_query", "helios_repo_summary"]);
    assert_eq!(
        tools_of(&twice).unwrap()[0].str_of("description").unwrap(),
        "Run a read-o"
    );
}

#[test]
fn replaced_tools_stand_in_the_list() {
    let v = read(&sample_list_resp());
    let out = replace_tools(&v, vec![field("name", "only")]);
    assert_eq!(tools_of(&out).unwrap().len(), 1);
    assert_eq!(out.str_of("jsonrpc").unwrap(), "2.0");
    assert!(tools_of(&Json::Null).is_none());
    assert!(trim_tools_list(&Json::Null, Profile::Full, StripDescMode::Keep).is_none());
}

#[test]
fn wrappers_are_named() {
    assert_eq!(
        wrapper_tool_names(),
        vec![
            "helios_ask",
            "helios_repo_summary",
            "helios_outline_first",
            "helios_doc_drill",
            "helios_semantic_filter",
            "helios_git_summary",
            "helios_symbol_card",
        ]
    );
}
