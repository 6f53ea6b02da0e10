use heliosdb_codekb_mcp::args::{
    arg_budget_tokens, arg_field_set, arg_int, arg_int_required, arg_str, arg_within, budget_bytes,
    project, shorten_chars,
};
use heliosdb_codekb_mcp::ask::{
    ask_fallback, ask_handler, ask_route, semantic_filter_handler, AskRoute,
};
use heliosdb_codekb_mcp::cells::Cell;
use heliosdb_codekb_mcp::docs::{
    doc_drill_handler, doc_drill_plan, outline_first_handler, outline_first_plan, section_title,
    SectionHit,
};
use heliosdb_codekb_mcp::git_summary::{
    git_summary_handler, git_summary_plan, git_summary_targets, DiffChange, DiffRow, FileDiff,
};
use heliosdb_codekb_mcp::json;
use heliosdb_codekb_mcp::json::Json;
use heliosdb_codekb_mcp::question::{
    first_backtick_term, likely_symbol_term, looks_like_architecture_question,
    looks_like_doc_question,
};
use heliosdb_codekb_mcp::repo_summary::{
    repo_summary_handler, repo_summary_sql, FileCards, FileRow,
};
use heliosdb_codekb_mcp::symbol_card::{
    needs_hover, symbol_card_handler, symbol_card_plan, Callee, Definition, Reference,
    SymbolFacts, SymbolLookup,
};
use serde_json::Value;

fn read(text: &str) -> Json {
    json::parse(text).expect("JSON text")
}

fn value(text: &str) -> Value {
    serde_json::from_str(text).unwrap()
}

/// The field `key` of an answer.
fn at(v: &Json, key: &str) -> Value {
    v.get(key).map(json::to_value).expect("a field")
}

fn t(s: &str) -> Cell {
    Cell::Text(s.to_string())
}

#[test]
fn arguments_are_read() {
    let args = read(r#"{"s":"x","n":7,"budget_tokens":50,"fields":["a",1,"b"]}"#);
    assert_eq!(arg_str(&args, "s"), Ok("x"));
    assert_eq!(
        arg_str(&args, "n"),
        Err("missing required string argument `n`".to_string())
    );
    assert_eq!(arg_int(&args, "n", 1), 7);
    assert_eq!(arg_int(&args, "s", 1), 1);
    assert_eq!(arg_int_required(&args, "n"), Ok(7));
    assert_eq!(
        arg_int_required(&args, "s"),
        Err("missing required integer argument `s`".to_string())
    );
    assert_eq!(arg_within(&args, "n", 1, 1, 5), 5);
    assert_eq!(arg_budget_tokens(&args, 1500), 200);
    assert_eq!(arg_budget_tokens(&Json::Null, 1500), 1500);
    assert_eq!(budget_bytes(&read(r#"{"budget_tokens":99999}"#), 1), 48_000);
    assert_eq!(
        arg_field_set(&args),
        Some(vec!["a".to_string(), "b".to_string()])
    );
    assert_eq!(arg_field_set(&read(r#"{"fields":[]}"#)), None);
}

#[test]
fn projection_keeps_named_fields() {
    let v = read(r#"{"a":1,"b":2,"c":3}"#);
    let names = Some(vec!["c".to_string(), "x".to_string()]);
    assert_eq!(json::render(&project(v, &names)), r#"{"c":3}"#);
    assert_eq!(json::render(&project(Json::UInt(1), &names)), "1");
    assert_eq!(
        json::render(&project(read(r#"{"a":1}"#), &None)),
        r#"{"a":1}"#
    );
}

#[test]
fn shortening_counts_what_is_cut() {
    assert_eq!(shorten_chars("abc", 3), ("abc".to_string(), 0));
    assert_eq!(shorten_chars("💰💰", 7), ("💰".to_string(), 4));
}

#[test]
fn file_cards_follow_the_detail() {
    assert_eq!(
        repo_summary_sql(&read(r#"{"limit":9000}"#)),
        "SELECT path, pagerank, top_symbols FROM _hdb_plugin_repomap_cards ORDER BY pagerank DESC LIMIT 500"
    );
    let rows = || {
        FileCards::Rows(vec![FileRow {
            path: t("a.rs"),
            pagerank: read("0.5"),
            top_symbols: t(r#"[{"name":"f","signature":"fn f()"},"loose"]"#),
        }])
    };
    let minimal = repo_summary_handler(&read(r#"{"detail":"minimal"}"#), &rows()).unwrap();
    assert_eq!(
        at(&minimal, "files"), value(r#"[{"path":"a.rs","pagerank":0.5}]"#)
    );
    let index = repo_summary_handler(&Json::Null, &rows()).unwrap();
    assert_eq!(
        at(&index, "files"), value(r#"[{"path":"a.rs","pagerank":0.5,"top_symbols":[{"name":"f"},"loose"]}]"#)
    );
    let full = repo_summary_handler(
        &read(r#"{"detail":"symbol_index","fields":["top_symbols"]}"#),
        &rows(),
    )
    .unwrap();
    assert_eq!(
        at(&full, "files"), value(r#"[{"top_symbols":[{"name":"f","signature":"fn f()"},"loose"]}]"#)
    );
    assert_eq!(full.str_of("schema"), Some("helios.answer_card.v1"));
    let card = index.get("answer_card").unwrap();
    assert_eq!(
        card.str_of("summary"),
        Some("Returned 1 PageRank-ranked file cards at detail=file_index.")
    );
    assert_eq!(card.int_of("budget_tokens"), Some(1200));
    assert_eq!(
        at(card, "evidence"), value(r#"[{"path":"a.rs","pagerank":0.5}]"#)
    );
    assert_eq!(
        repo_summary_handler(&Json::Null, &FileCards::Failed("boom".to_string())).err(),
        Some("query failed: boom".to_string())
    );
    let none = repo_summary_handler(&Json::Null, &FileCards::NotBuilt).unwrap();
    assert_eq!(none.str_of("status"), Some("cards_not_built"));
}

#[test]
fn outlines_list_sections() {
    assert_eq!(
        outline_first_plan(&read(r#"{"query":"x","max_sections":500}"#)),
        Ok(("x".to_string(), 100))
    );
    assert_eq!(
        outline_first_plan(&Json::Null),
        Err("missing required string argument `query`".to_string())
    );
    let hits = vec![SectionHit {
        node_id: Json::Int(4),
        title: Json::text("Intro"),
        text: Some(format!("{}\nsecond", "é".repeat(300))),
        source_ref: Json::Null,
    }];
    let out = outline_first_handler(&read(r#"{"query":"x"}"#), &Ok(hits)).unwrap();
    let section = &out.items_of("sections").unwrap()[0];
    assert_eq!(section.str_of("summary").unwrap(), "é".repeat(200));
    assert_eq!(at(section, "source"), Value::Null);
    assert_eq!(out.int_of("count"), Some(1));
    assert!(outline_first_handler(
        &read(r#"{"query":"x"}"#),
        &Err("no graph".to_string())
    )
    .is_err());
}

#[test]
fn sections_are_drilled_within_the_budget() {
    let (id, title_sql, chunk_sql) =
        doc_drill_plan(&read(r#"{"section_id":12,"max_chunks":3}"#)).unwrap();
    assert_eq!(id, 12);
    assert_eq!(
        title_sql,
        "SELECT title FROM _hdb_graph_nodes WHERE node_id = 12 AND node_kind = 'DocSection'"
    );
    assert!(chunk_sql.ends_with("ORDER BY n.node_id LIMIT 3"));
    assert_eq!(
        doc_drill_plan(&Json::Null),
        Err("missing required integer argument `section_id`".to_string())
    );
    assert_eq!(
        section_title(12, &Ok(vec![vec![t("Intro")]])),
        Ok("Intro".to_string())
    );
    assert_eq!(
        section_title(12, &Ok(Vec::new())),
        Err("no DocSection node with id 12".to_string())
    );
    assert_eq!(
        section_title(12, &Err("boom".to_string())),
        Err("section lookup failed: boom".to_string())
    );

    let args = read(r#"{"section_id":12,"budget_tokens":200}"#);
    let rows = vec![
        vec![Cell::Int8(1), t(&"a".repeat(700)), t("x.md")],
        vec![Cell::Int8(2), t(&"b".repeat(300)), t("x.md")],
        vec![Cell::Int8(3), t("c"), t("x.md")],
    ];
    let out = doc_drill_handler(&args, 12, "Intro", &Ok(rows)).unwrap();
    let chunks = out.items_of("chunks").unwrap();
    let sizes: Vec<usize> = chunks
        .iter()
        .map(|c| c.str_of("text").unwrap().len())
        .collect();
    assert_eq!(sizes, vec![700, 100, 0]);
    let omitted = out
        .get("answer_card")
        .unwrap()
        .items_of("omitted")
        .unwrap();
    assert_eq!(omitted.len(), 2);
    assert_eq!(omitted[0].int_of("bytes"), Some(200));
    assert_eq!(omitted[0].int_of("chunk_id"), Some(2));
    assert_eq!(omitted[1].int_of("bytes"), Some(1));
    assert_eq!(
        at(&omitted[0], "open_with"), value(r#"{"action":"doc_drill","args":{"section_id":12,"budget_tokens":12000}}"#)
    );
    assert!(doc_drill_handler(&args, 12, "Intro", &Err("boom".to_string())).is_err());
}

#[test]
fn changes_are_sorted_by_kind() {
    let args = read(r#"{"commit_a":"a1","commit_b":"b2","paths":["x.rs",3,"y.rs"]}"#);
    let plan = git_summary_plan(&args).unwrap();
    assert_eq!(plan.paths, vec!["x.rs", "y.rs"]);
    assert_eq!(
        git_summary_targets(&plan, &Err("unused".to_string())),
        Ok(vec!["x.rs".to_string(), "y.rs".to_string()])
    );
    let whole = git_summary_plan(&read(r#"{"commit_a":"a1","commit_b":"b2"}"#)).unwrap();
    assert_eq!(
        git_summary_targets(&whole, &Ok(vec![vec![t("z.rs")]])),
        Ok(vec!["z.rs".to_string()])
    );
    assert_eq!(
        git_summary_targets(&whole, &Err("boom".to_string())),
        Err("file list failed: boom".to_string())
    );
    assert_eq!(
        git_summary_plan(&read(r#"{"commit_a":"a1"}"#)).err(),
        Some("missing required string argument `commit_b`".to_string())
    );

    let row = |change: DiffChange, name: &str| DiffRow {
        change,
        kind: Json::text("function"),
        qualified: Json::text(name),
        line_a: Json::Null,
        line_b: Json::UInt(3),
    };
    let diffs = vec![
        FileDiff {
            path: "x.rs".to_string(),
            rows: Some(vec![
                row(DiffChange::Removed, "gone"),
                row(DiffChange::Added, "new"),
            ]),
        },
        FileDiff {
            path: "y.rs".to_string(),
            rows: None,
        },
    ];
    let out = git_summary_handler(&args, &plan, &diffs);
    assert_eq!(out.int_of("scanned_paths"), Some(2));
    assert_eq!(out.int_of("skipped_paths"), Some(1));
    assert_eq!(
        at(&out, "added"), value(r#"[{"path":"x.rs","kind":"function","qualified":"new","line_a":null,"line_b":3}]"#)
    );
    assert_eq!(out.items_of("removed").unwrap().len(), 1);
    assert!(out.items_of("moved").unwrap().is_empty());
}

fn facts(card: Option<Vec<Cell>>, hover: Option<&str>) -> SymbolLookup {
    SymbolLookup::Found(SymbolFacts {
        definition: Definition {
            qualified: "m::f".to_string(),
            signature: Json::text("fn f()"),
            path: Json::text("m.rs"),
            line: Json::UInt(9),
        },
        card,
        hover: hover.map(|s| s.to_string()),
        callers: (0..3)
            .map(|i| Reference {
                path: Json::text("c.rs"),
                line: Json::UInt(i),
                caller_symbol_id: Json::Null,
            })
            .collect(),
        callees: vec![Callee {
            qualified: Json::text("m::g"),
            path: Json::text("m.rs"),
            line: Json::UInt(1),
        }],
    })
}

#[test]
fn symbol_cards_fall_back_to_the_code_graph() {
    let args = read(r#"{"qualified_name":"m::f","max_callers":2}"#);
    let plan = symbol_card_plan(&args).unwrap();
    assert_eq!(plan.bare, "f");
    assert_eq!((plan.max_callers, plan.max_callees), (2, 5));
    assert!(needs_hover(&None));
    assert!(needs_hover(&Some(vec![t(""), t("")])));
    assert!(!needs_hover(&Some(vec![t("Doc."), t("")])));

    let out = symbol_card_handler(&args, &facts(None, Some("From hover.\nMore."))).unwrap();
    assert_eq!(out.str_of("doc1l"), Some("From hover."));
    assert_eq!(out.items_of("callers").unwrap().len(), 2);
    assert_eq!(out.items_of("callees").unwrap().len(), 1);
    assert_eq!(
        out.get("answer_card").unwrap().str_of("summary"),
        Some("From hover.")
    );

    let stored = Some(vec![t("Stored."), t("Summed up.")]);
    let out = symbol_card_handler(
        &read(r#"{"qualified_name":"m::f","fields":["file","llm_summary"]}"#),
        &facts(stored, None),
    )
    .unwrap();
    assert!(out.get("qualified").is_none());
    assert_eq!(out.str_of("file"), Some("m.rs"));
    assert_eq!(
        out.get("answer_card").unwrap().str_of("summary"),
        Some("Summed up.")
    );

    let out = symbol_card_handler(&args, &facts(None, None)).unwrap();
    assert_eq!(
        out.get("answer_card").unwrap().str_of("summary"),
        Some("Returned compact symbol card for `m::f`.")
    );
    assert_eq!(
        symbol_card_handler(&Json::Null, &SymbolLookup::Missing).err(),
        Some("missing required string argument `qualified_name`".to_string())
    );
}

#[test]
fn questions_are_read() {
    assert_eq!(
        first_backtick_term("what does `m::f` do in `g`?"),
        Some("m::f".to_string())
    );
    assert_eq!(first_backtick_term("an open `term"), Some("term".to_string()));
    assert_eq!(first_backtick_term("no term"), None);
    assert_eq!(
        likely_symbol_term("who calls EmbeddedDatabase::new today"),
        Some("EmbeddedDatabase::new".to_string())
    );
    assert!(looks_like_architecture_question("Give me an OVERVIEW"));
    assert!(!looks_like_architecture_question("who calls f"));
    assert!(looks_like_doc_question("what does the README say"));
    assert!(!looks_like_doc_question("who calls f"));
}

#[test]
fn questions_are_routed() {
    let (route, args) =
        ask_route(&read(r#"{"question":"What is the architecture?","budget_tokens":900}"#))
            .unwrap();
    assert_eq!(route, AskRoute::RepoSummary);
    assert_eq!(json::to_value(&args), value(r#"{"detail":"file_index","limit":20,"budget_tokens":900}"#));
    let (route, args) =
        ask_route(&read(r#"{"question":"explain `m::f`","mode":"audit"}"#)).unwrap();
    assert_eq!(route, AskRoute::SymbolCard);
    assert_eq!(json::to_value(&args), value(r#"{"qualified_name":"m::f","max_callers":8,"max_callees":8,"budget_tokens":1500}"#));
    let (route, args) = ask_route(&read(r#"{"question":"why so slow"}"#)).unwrap();
    assert_eq!(route, AskRoute::OutlineFirst);
    assert_eq!(json::to_value(&args), value(r#"{"query":"why so slow","max_sections":8,"budget_tokens":1500}"#));
    assert_eq!(
        ask_route(&Json::Null).err(),
        Some("missing required string argument `question`".to_string())
    );
}

#[test]
fn missing_symbols_go_on_to_the_documentation() {
    let args = read(r#"{"question":"explain `m::f`"}"#);
    let missing = read(r#"{"status":"not_found"}"#);
    let outline = ask_fallback(&args, AskRoute::SymbolCard, &missing).unwrap();
    assert_eq!(
        json::to_value(&outline),
        value(r#"{"query":"explain `m::f`","max_sections":8,"budget_tokens":1500}"#)
    );
    assert!(ask_fallback(&args, AskRoute::OutlineFirst, &missing).is_none());
    assert!(ask_fallback(&args, AskRoute::SymbolCard, &read(r#"{"status":"ok"}"#)).is_none());
    let plain = read(r#"{"question":"who calls `m::f`"}"#);
    assert!(ask_fallback(&plain, AskRoute::SymbolCard, &missing).is_none());
}

#[test]
fn answers_carry_what_was_found() {
    let args = read(r#"{"question":"explain `m::f`"}"#);
    let result = read(r#"{"answer_card":{"summary":"Found.","evidence":[1,2]}}"#);
    let out = ask_handler(&args, AskRoute::SymbolCard, &Json::Null, &result).unwrap();
    assert_eq!(out.str_of("route"), Some("symbol_card"));
    assert_eq!(out.str_of("mode"), Some("answer"));
    assert_eq!(at(&out, "result"), json::to_value(&result));
    let card = out.get("answer_card").unwrap();
    assert_eq!(card.str_of("summary"), Some("Found."));
    assert_eq!(at(card, "evidence"), value("[1,2]"));
    let out = ask_handler(&args, AskRoute::OutlineFirst, &Json::Null, &Json::Null).unwrap();
    assert_eq!(
        out.get("answer_card").unwrap().str_of("summary"),
        Some("Routed question through outline_first.")
    );
}

#[test]
fn semantic_filter_says_that_it_waits() {
    assert!(semantic_filter_handler()
        .unwrap_err()
        .starts_with("helios_semantic_filter: not yet wired"));
}
