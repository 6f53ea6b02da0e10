use heliosdb_codekb_mcp::cells::{
    as_string, sql_lit, table_exists_sql, to_int, tuple_int, tuple_str, Cell,
};
use heliosdb_codekb_mcp::config::Config;
use heliosdb_codekb_mcp::decimal::{
    hex_text, padded_text, read_i64, read_usize, signed_text, unsigned_text,
};
use heliosdb_codekb_mcp::ingest::{
    after_pass, background_args, build_llm_distill_opts, inline_flags, summary_lines, AfterPass,
    CodeStats, IngestFlags, IngestSummary,
};
use heliosdb_codekb_mcp::json;
use heliosdb_codekb_mcp::json::Json;
use heliosdb_codekb_mcp::kb::{KbMode, KbSpec};
use heliosdb_codekb_mcp::linker::LinkerStats;
use heliosdb_codekb_mcp::status::{
    background_lines, cache_line, config_lines, info_url, init_lines, read_cache_counters,
    source_lines,
};
use heliosdb_codekb_mcp::text;
use heliosdb_codekb_mcp::utf8;

const SAMPLE: &str =
    r#"{"a":[null,true,18446744073709551615,-5,1.5,"x\"\n💰"],"b":{"c":{}},"d":[]}"#;

#[test]
fn json_text_reads_back() {
    let v = json::parse(SAMPLE).unwrap();
    assert_eq!(json::render(&v), SAMPLE);
    let items = v.items_of("a").unwrap();
    assert!(matches!(items[0], Json::Null));
    assert!(matches!(items[1], Json::Bool(true)));
    assert!(matches!(items[2], Json::UInt(u64::MAX)));
    assert_eq!(items[2].as_i64(), None);
    assert_eq!(items[3].as_i64(), Some(-5));
    assert!(matches!(items[4], Json::Float(_)));
    assert_eq!(items[5].as_str(), Some("x\"\n💰"));
    assert!(json::parse("{").is_none());
    assert!(json::parse("").is_none());
}

#[test]
fn json_goes_to_values_and_back() {
    let value: serde_json::Value = serde_json::from_str(SAMPLE).unwrap();
    let v = json::from_value(value.clone());
    assert_eq!(json::render(&v), SAMPLE);
    assert_eq!(json::to_value(&v), value);
    assert_eq!(json::to_value(&v.copy()), value);
}

#[test]
fn deep_json_is_refused() {
    let deep = format!("{}{}", "[".repeat(127), "]".repeat(127));
    assert_eq!(json::render(&json::parse(&deep).unwrap()), deep);
    let deeper = format!("{}{}", "[".repeat(128), "]".repeat(128));
    assert!(json::parse(&deeper).is_none());
}

#[test]
fn the_name_of_unread_text_is_not_plain() {
    let mut v = Json::object();
    v.put(json::RAW_TEXT_NAME, Json::Text("5".to_string()));
    let text = json::render(&v);
    assert_eq!(text, r#"{"$serde_json::private::RawValue":"5"}"#);
    assert!(matches!(json::parse(&text), Some(Json::UInt(5))));
}

#[test]
fn objects_hold_one_value_per_key() {
    let mut v = Json::object().with("b", Json::UInt(1)).with("a", Json::UInt(2));
    v.put("b", Json::UInt(3));
    assert_eq!(json::render(&v), r#"{"a":2,"b":3}"#);
    assert_eq!(v.int_of("b"), Some(3));
    assert!(v.get("c").is_none());
    let mut list = Json::texts(&vec!["x", "y"]);
    list.put("ignored", Json::Null);
    assert_eq!(json::render(&list), r#"["x","y"]"#);
    assert_eq!(list.as_array().unwrap().len(), 2);
    assert_eq!(json::render(&Json::number(7)), "7");
}

#[test]
fn texts_are_cut_and_compared() {
    assert_eq!(text::trim(" \t\u{a0}x y\n"), "x y");
    assert_eq!(text::strip_prefix("abc", "ab"), Some("c".to_string()));
    assert_eq!(text::strip_prefix("abc", "b"), None);
    assert!(text::contains("héllo", "éll"));
    assert!(text::starts_with("abc", "") && text::ends_with("abc", "bc"));
    assert_eq!(text::take_chars("héllo", 2), "hé");
    assert_eq!(text::head_before("a\nb", '\n'), "a");
    assert_eq!(text::head_before("ab", '\n'), "ab");
    assert_eq!(text::lines("a\r\n\nb\n"), vec!["a", "", "b"]);
    assert!(text::lines("").is_empty());
    assert_eq!(text::lower("ÀB c"), "Àb c");
    assert_eq!(text::replace("a'b'", '\'', "''"), "a''b''");
    assert_eq!(text::tail_after_last("a::b::c", "::"), "c");
    assert_eq!(text::tail_after_last("abc", "::"), "abc");
    assert_eq!(text::strip_suffixes("x\"\"\"\"\"\"", "\"\"\""), "x");
    assert_eq!(text::strip_prefixes("##x", "#"), "x");
    assert_eq!(text::strip_leading("//x/", '/'), "x/");
    assert_eq!(text::strip_trailing("/x//", '/'), "/x");
    assert!(text::precedes("a", "ab") && text::precedes("Z", "a") && !text::precedes("a", "a"));
    assert!(text::among("b", &vec!["a", "b"]));
    assert_eq!(text::cat5("a", "b", "c", "d", "e"), "abcde");
    let parts = vec!["a".to_string(), "b".to_string(), "c".to_string()];
    assert_eq!(text::join(&parts, 1, 3, ", "), "b, c");
}

#[test]
fn bytes_are_counted_and_cut() {
    assert_eq!(utf8::len_of("a💰é"), 7);
    assert_eq!(utf8::cut("a💰é", 4), "a");
    assert_eq!(utf8::cut("a💰é", 5), "a💰");
    assert_eq!(utf8::cut("a💰é", 7), "a💰é");
    assert_eq!(utf8::fnv(utf8::FNV_START, "a"), 0xaf63dc4c8601ec8c);
}

#[test]
fn numbers_are_written_and_read() {
    assert_eq!(unsigned_text(0), "0");
    assert_eq!(unsigned_text(u64::MAX), "18446744073709551615");
    assert_eq!(signed_text(i64::MIN), "-9223372036854775808");
    assert_eq!(padded_text(7, 2), "07");
    assert_eq!(padded_text(2024, 2), "2024");
    assert_eq!(hex_text(0xab, 4), "00ab");
    assert_eq!(read_usize("42"), Some(42));
    assert_eq!(read_usize("+42"), Some(42));
    assert_eq!(read_usize("-1"), None);
    assert_eq!(read_usize(""), None);
    assert_eq!(read_usize("+"), None);
    assert_eq!(read_usize("18446744073709551616"), None);
    assert_eq!(read_i64("-9223372036854775808"), Some(i64::MIN));
    assert_eq!(read_i64("9223372036854775808"), None);
    assert_eq!(read_i64("-"), None);
    assert_eq!(read_i64("1 "), None);
}

#[test]
fn cells_are_read() {
    let row = vec![
        Cell::Text("x".to_string()),
        Cell::Int2(-2),
        Cell::Int4(4),
        Cell::Int8(8),
        Cell::Other,
    ];
    assert_eq!(tuple_str(&row, 0), "x");
    assert_eq!(tuple_str(&row, 1), "");
    assert_eq!(tuple_str(&row, 9), "");
    assert_eq!(as_string(&row, 0), Some("x".to_string()));
    assert_eq!(as_string(&row, 4), None);
    assert_eq!(tuple_int(&row, 1), Some(-2));
    assert_eq!(tuple_int(&row, 3), Some(8));
    assert_eq!(tuple_int(&row, 0), None);
    assert_eq!(to_int(&row, 1), None);
    assert_eq!(to_int(&row, 2), Some(4));
    assert_eq!(sql_lit("it's ''"), "'it''s '''''");
    assert!(table_exists_sql("t").contains("t"));
}

#[test]
fn ingest_flags_follow_the_phase() {
    let flags = IngestFlags {
        include_binary_docs: true,
        force_reparse: false,
        durable_writes: false,
        with_embeddings: true,
        background_quality: true,
    };
    let inline = inline_flags(flags, false);
    assert!(!inline.with_embeddings && !inline.background_quality && !inline.force_reparse);
    let child = inline_flags(flags, true);
    assert!(child.with_embeddings && child.force_reparse && child.include_binary_docs);
    assert_eq!(after_pass(flags, false), AfterPass::StartBackground);
    assert_eq!(after_pass(flags, true), AfterPass::Finalize);
    let plain = IngestFlags {
        background_quality: false,
        ..flags
    };
    assert_eq!(after_pass(plain, false), AfterPass::Nothing);
    assert_eq!(
        background_args("/src", true),
        vec![
            "ingest",
            "--source",
            "/src",
            "--with-embeddings",
            "--force",
            "--durable-writes"
        ]
    );
    assert!(build_llm_distill_opts(false, "e", "m", 4, 0).is_none());
    let opts = build_llm_distill_opts(true, "e", "m", 0, 9).unwrap();
    assert_eq!((opts.concurrency, opts.max_symbols), (1, 9));
    assert_eq!(opts.endpoint, "e");
}

#[test]
fn ingest_is_summed_up() {
    let s = IngestSummary {
        files_seen: 3,
        code_upserts: 1,
        doc_upserts: 1,
        md_doc_upserts: 1,
        binary_upserts: 0,
        skipped: 0,
        read_errors: 2,
        elapsed_ms: 15,
        read_error_samples: vec!["a.rs: denied".to_string()],
        code: Some(CodeStats {
            files_seen: 1,
            files_parsed: 1,
            files_unchanged: 0,
            files_skipped: 0,
            symbols_written: 4,
            refs_written: 2,
            parse_elapsed_ms: 1,
            write_elapsed_ms: 2,
            parse_workers: 8,
            chunks_processed: 1,
        }),
        docs: None,
        docs_md: None,
        links: Some(LinkerStats {
            nodes_scanned: 5,
            candidates_seen: 2,
            mentions_added: 1,
        }),
    };
    let lines = summary_lines(&s, "/src", "/kb", false);
    assert_eq!(lines[0], "ingest summary");
    assert!(lines.contains(&"  source        : /src".to_string()));
    assert!(lines.contains(&"  wal sync      : Async (fast)".to_string()));
    assert!(lines.contains(&"  upserted      : 1 code, 1 text, 1 markdown, 0 binary-doc".to_string()));
    assert!(lines.contains(&"  read error samples (1 of 2):".to_string()));
    assert!(lines.contains(&"    a.rs: denied".to_string()));
    assert!(lines.contains(
        &"  code_index    : files_seen=1 parsed=1 unchanged=0 skipped=0 symbols=4 refs=2"
            .to_string()
    ));
    assert!(lines
        .contains(&"  linker        : nodes_scanned=5 mentions_added=1 candidates=2".to_string()));
}

#[test]
fn status_is_reported() {
    let spec = KbSpec {
        mode: KbMode::CoLocated,
        kb_dir: "/src/.helios-kb".to_string(),
    };
    assert_eq!(
        source_lines("/src", &spec, Some(4096)),
        vec![
            "source : /src",
            "kb     : /src/.helios-kb",
            "mode   : co-located",
            "kb-on-disk : exists (4096 bytes top-level)",
        ]
    );
    assert_eq!(
        source_lines("/src", &spec, None)[3],
        "kb-on-disk : missing — run `init` again"
    );
    assert_eq!(
        init_lines("/src", &spec, "/cfg"),
        vec![
            "✓ KB created at /src/.helios-kb",
            "✓ source `/src` → mode `co-located`",
            "✓ `.helios-kb/` added to /src/.gitignore",
            "✓ config persisted at /cfg",
            "",
            "Next: register the MCP server with your agent and start a session.",
        ]
    );
    let mut cfg = Config::default();
    cfg.upsert_kb("/src", spec, 0);
    assert_eq!(
        config_lines(&cfg, "/cfg"),
        vec![
            "config : /cfg",
            "default-mode : global",
            "registered KBs (1):",
            "  /src  →  /src/.helios-kb  (co-located)",
        ]
    );
    assert_eq!(background_lines(7, "/l", "/p", "/src")[2], "  pid       : 7");
}

#[test]
fn server_counters_are_reported() {
    assert_eq!(info_url("http://h:1/"), "http://h:1/info");
    assert_eq!(info_url("http://h:1/info"), "http://h:1/info");
    assert_eq!(info_url("http://h:1/info/"), "http://h:1/info/");
    let info =
        json::parse(r#"{"cache":{"size":1,"capacity":64,"hits":3,"misses":1,"generation":2}}"#)
            .unwrap();
    let c = read_cache_counters(&info).unwrap();
    assert_eq!(
        cache_line(&c, "75.0"),
        "mcp cache : 1 / 64 entries, 75.0% hit rate (3 hit / 1 miss), gen 2"
    );
    assert!(read_cache_counters(&json::parse(r#"{"cache":1}"#).unwrap()).is_none());
    let blank = read_cache_counters(&json::parse(r#"{"cache":{"hits":-1}}"#).unwrap()).unwrap();
    assert_eq!(blank.hits, 0);
}
