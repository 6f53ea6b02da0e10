use heliosdb_codekb_mcp::cells::Cell;
use heliosdb_codekb_mcp::distill::{
    ascii_fallback, blake_hex, build_symbol_cards, cap, extract_doc1l, sanitize,
    symbol_card_statements, SymbolCard, MAX_FIELD_BYTES,
};
use heliosdb_codekb_mcp::json;
use heliosdb_codekb_mcp::json::Json;
use heliosdb_codekb_mcp::linker::{
    contains_whole_word, is_ident_char, link_mentions_bulk, mention_statements,
};
use heliosdb_codekb_mcp::llm::{
    build_llm_summaries, build_prompt, chat_request, chat_url, finish_pass, model_tag, read_reply,
    summary_to_store, LlmDistillOptions, PathRank, PROMPT_HEAD,
};
use heliosdb_codekb_mcp::ranking::{rank_order, RankKey, NO_RANK};
use heliosdb_codekb_mcp::repomap::{
    build_repomap_cards, call_edges, file_card_statements, group_by_file, read_symbol_ids,
    top_places, RankedFile, TOP_SYMBOLS,
};
use heliosdb_codekb_mcp::statements::{batches, bulk_upsert, SqlValue};
use heliosdb_codekb_mcp::strmap::StrMap;

fn t(s: &str) -> Cell {
    Cell::Text(s.to_string())
}

fn value(text: &str) -> serde_json::Value {
    serde_json::from_str(text).unwrap()
}

fn n(i: i64) -> Cell {
    Cell::Int8(i)
}

#[test]
fn extract_doc1l_rust_triple_slash() {
    let lines = vec![
        "// header".to_string(),
        "".to_string(),
        "/// Encodes a frame to wire form.".to_string(),
        "pub fn encode() {}".to_string(),
    ];
    let s = extract_doc1l(&lines, 4);
    assert_eq!(s, "Encodes a frame to wire form.");
}

#[test]
fn extract_doc1l_python_hash_and_blank() {
    let lines = vec![
        "import os".to_string(),
        "".to_string(),
        "# Top-level helper.".to_string(),
        "def go():".to_string(),
    ];
    let s = extract_doc1l(&lines, 4);
    assert_eq!(s, "Top-level helper.");
}

#[test]
fn extract_doc1l_caps_120_chars() {
    let long = "A".repeat(500);
    let lines = vec![format!("// {long}"), "fn f() {}".to_string()];
    let s = extract_doc1l(&lines, 2);
    assert_eq!(s.len(), 120);
    assert!(s.chars().all(|c| c == 'A'));
}

#[test]
fn extract_doc1l_no_comment_returns_empty() {
    let lines = vec!["use std::io;".to_string(), "fn f() {}".to_string()];
    let s = extract_doc1l(&lines, 2);
    assert!(s.is_empty());
}

#[test]
fn extract_doc1l_out_of_bounds_returns_empty() {
    let lines = vec!["fn f() {}".to_string()];
    assert!(extract_doc1l(&lines, 0).is_empty());
    assert!(extract_doc1l(&lines, 999).is_empty());
}

#[test]
fn doc_lines_are_read_across_blank_lines() {
    let lines = vec![
        "\"\"\"Reads a frame.\"\"\"".to_string(),
        "   ".to_string(),
        "def read():".to_string(),
    ];
    assert_eq!(extract_doc1l(&lines, 3), "Reads a frame.");
    let first = vec!["/// Not above itself.".to_string()];
    assert_eq!(extract_doc1l(&first, 1), "");
}

#[test]
fn blake_hex_is_stable_and_collision_avoiding() {
    let a = blake_hex("hello");
    let b = blake_hex("hello");
    assert_eq!(a, b);
    let c = blake_hex("world");
    assert_ne!(a, c);
    assert_eq!(a.len(), 16);
}

#[test]
fn content_hashes_have_known_values() {
    assert_eq!(blake_hex(""), "cbf29ce484222325");
    assert_eq!(blake_hex("a"), "af63dc4c8601ec8c");
    assert_eq!(blake_hex("foobar"), "85944171f73967e8");
}

#[test]
fn card_fields_are_plain_ascii() {
    assert_eq!(
        sanitize("a — “b” → ‘c’… ✓\u{a0}é"),
        "a - \"b\" - 'c'. + ?"
    );
    assert_eq!(ascii_fallback('\u{2014}'), '-');
    assert_eq!(ascii_fallback('é'), '?');
    let long = "é".repeat(MAX_FIELD_BYTES + 10);
    assert_eq!(cap(&long), "?".repeat(MAX_FIELD_BYTES));
}

fn symbol_rows() -> Vec<Vec<Cell>> {
    vec![
        vec![n(1), n(10), t("lib::add"), t("fn add()"), n(2)],
        vec![n(2), n(10), t("lib::sub"), t("fn sub()"), n(4)],
        vec![n(3), n(99), t("lib::lost"), t("fn lost()"), n(1)],
        vec![n(4), n(10), t(""), t("fn nameless()"), n(1)],
    ]
}

fn source_rows() -> Vec<Vec<Cell>> {
    vec![vec![
        t("src/lib.rs"),
        t("/// Adds — twice.\nfn add() {}\n\nfn sub() {}\n"),
    ]]
}

fn file_rows() -> Vec<Vec<Cell>> {
    vec![vec![Cell::Int4(10), t("src/lib.rs")]]
}

#[test]
fn symbol_cards_are_written_once() {
    let (stats, cards) = build_symbol_cards(
        &None,
        &Some(source_rows()),
        &symbol_rows(),
        &file_rows(),
    );
    assert_eq!(stats.symbols_scanned, 4);
    assert_eq!(stats.symbols_written, 2);
    assert_eq!(stats.symbols_unchanged, 0);
    assert_eq!(cards[0].qualified, "lib::add");
    assert_eq!(cards[0].doc1l, "Adds - twice.");
    assert_eq!(cards[1].doc1l, "");
    assert_eq!(
        symbol_card_statements(&cards)[0],
        "DELETE FROM _hdb_plugin_symbol_cards WHERE qualified IN ('lib::add','lib::sub')"
    );

    let stored: Vec<Vec<Cell>> = cards
        .iter()
        .map(|c| vec![t(&c.qualified), t(&c.content_hash)])
        .collect();
    let (stats, cards) = build_symbol_cards(
        &Some(stored),
        &Some(source_rows()),
        &symbol_rows(),
        &file_rows(),
    );
    assert_eq!(stats.symbols_written, 0);
    assert_eq!(stats.symbols_unchanged, 2);
    assert!(cards.is_empty());
    assert!(symbol_card_statements(&cards).is_empty());
}

#[test]
fn the_last_row_of_a_name_counts() {
    let symbols = vec![
        vec![n(1), n(10), t("lib::new"), t("fn new(a: u8)"), n(9)],
        vec![n(2), n(10), t("lib::new"), t("fn new(b: u16)"), n(9)],
    ];
    let (stats, cards) = build_symbol_cards(&None, &None, &symbols, &file_rows());
    assert_eq!(stats.symbols_written, 1);
    assert_eq!(cards[0].signature, "fn new(b: u16)");

    let stored = Some(vec![vec![t("lib::new"), t(&cards[0].content_hash)]]);
    let (stats, cards) = build_symbol_cards(&stored, &None, &symbols, &file_rows());
    assert_eq!(stats.symbols_scanned, 2);
    assert_eq!(stats.symbols_written, 0);
    assert_eq!(stats.symbols_unchanged, 1);
    assert!(cards.is_empty());

    let first = vec![vec![n(1), n(10), t("lib::new"), t("fn new(a: u8)"), n(9)]];
    let (_, older) = build_symbol_cards(&None, &None, &first, &file_rows());
    let stored = Some(vec![vec![t("lib::new"), t(&older[0].content_hash)]]);
    let (_, cards) = build_symbol_cards(&stored, &None, &symbols, &file_rows());
    assert_eq!(cards.len(), 1);
    assert_eq!(cards[0].signature, "fn new(b: u16)");
}

#[test]
fn card_rows_are_quoted() {
    let cards = vec![SymbolCard {
        qualified: "it's".to_string(),
        signature: "fn f(x: &'a str)".to_string(),
        doc1l: String::new(),
        content_hash: "00".to_string(),
    }];
    assert_eq!(
        symbol_card_statements(&cards),
        vec![
            "DELETE FROM _hdb_plugin_symbol_cards WHERE qualified IN ('it''s')".to_string(),
            "INSERT INTO _hdb_plugin_symbol_cards (qualified, signature, doc1l, content_hash) VALUES ('it''s','fn f(x: &''a str)','','00')".to_string(),
        ]
    );
}

#[test]
fn statements_come_in_pieces() {
    let keys: Vec<String> = (0..501).map(|i| format!("k{i}")).collect();
    let rows = vec![vec![
        SqlValue {
            text: "k".to_string(),
            numeric: false,
        },
        SqlValue {
            text: "1.5".to_string(),
            numeric: true,
        },
    ]];
    let columns = vec!["key".to_string(), "rank".to_string()];
    let out = bulk_upsert("t", "key", &columns, &keys, &rows);
    assert_eq!(out.len(), 3);
    assert!(out[0].starts_with("DELETE FROM t WHERE key IN ('k0','k1',"));
    assert!(out[0].ends_with("'k499')"));
    assert_eq!(out[1], "DELETE FROM t WHERE key IN ('k500')");
    assert_eq!(out[2], "INSERT INTO t (key, rank) VALUES ('k',1.5)");
}

#[test]
fn batches_leave_blank_lines_out() {
    let mut lines: Vec<String> = (0..101).map(|i| format!("s{i}")).collect();
    lines.insert(3, String::new());
    let out = batches(lines);
    assert_eq!(
        out.iter().map(|b| b.len()).collect::<Vec<usize>>(),
        vec![50, 50, 1]
    );
    assert_eq!(out[0][3], "s3");
    assert_eq!(out[2][0], "s100");
    assert!(batches(Vec::new()).is_empty());
}

#[test]
fn files_own_their_symbols() {
    let rows = vec![
        vec![n(1), t("b.rs")],
        vec![n(2), t("a.rs")],
        vec![Cell::Other, t("a.rs")],
        vec![n(3), t("b.rs")],
    ];
    assert_eq!(read_symbol_ids(&rows), vec![1, 2, 3]);
    let groups = group_by_file(&rows);
    assert_eq!(groups.len(), 2);
    let b = groups.iter().find(|g| g.path == "b.rs").unwrap();
    assert_eq!(b.symbols, vec![1, 3]);
    let edges = vec![vec![n(1), n(2)], vec![n(1), Cell::Other], vec![n(3), n(1)]];
    assert_eq!(call_edges(&edges), vec![(1, 2), (3, 1)]);
}

#[test]
fn longest_places_come_first() {
    assert_eq!(top_places(&vec![3, 9, 9, 1]), vec![1, 2, 0, 3]);
    let many: Vec<u64> = (0..20).collect();
    let top = top_places(&many);
    assert_eq!(top.len(), TOP_SYMBOLS);
    assert_eq!(top[0], 19);
    assert_eq!(top[9], 10);
}

#[test]
fn file_cards_hold_their_top_symbols() {
    let rows = vec![vec![n(1), t("a.rs")], vec![n(2), t("a.rs")]];
    let files: Vec<RankedFile> = group_by_file(&rows)
        .into_iter()
        .map(|group| RankedFile {
            group,
            score: "0.75".to_string(),
        })
        .collect();
    let symbols = vec![
        vec![n(1), t("one"), t("m::one"), t("fn one()")],
        vec![n(2), t("two"), t("m::two"), t("fn two(n: u8)")],
    ];
    let cards = vec![vec![t("m::two"), t("Says two.")], vec![t("one"), t("bare")]];
    let out = build_repomap_cards(&files, &Some(symbols), &Some(cards));
    assert_eq!(out.len(), 1);
    assert_eq!(out[0].path, "a.rs");
    assert_eq!(out[0].pagerank, "0.75");
    let top = json::parse(&out[0].top_symbols).unwrap();
    assert_eq!(
        json::to_value(&top),
        value(
            r#"[{"name":"two","signature":"fn two(n: u8)","doc1l":"Says two."},{"name":"one","signature":"fn one()","doc1l":""}]"#
        )
    );
    let statements = file_card_statements(&out);
    assert_eq!(
        statements[0],
        "DELETE FROM _hdb_plugin_repomap_cards WHERE path IN ('a.rs')"
    );
    assert!(statements[1].starts_with(
        "INSERT INTO _hdb_plugin_repomap_cards (path, pagerank, top_symbols) VALUES ('a.rs',0.75,'[{"
    ));
}

#[test]
fn file_cards_list_the_longest_signatures() {
    let rows: Vec<Vec<Cell>> = (1..=12).map(|id| vec![n(id), t("a.rs")]).collect();
    let files: Vec<RankedFile> = group_by_file(&rows)
        .into_iter()
        .map(|group| RankedFile {
            group,
            score: "1".to_string(),
        })
        .collect();
    let mut symbols = vec![
        vec![n(1), t("s1"), t("s1"), t("abc")],
        vec![n(2), t("s2"), t("s2"), t("éé")],
        vec![n(3), t("s3"), t("s3"), t("abc")],
    ];
    for id in 5..=12 {
        symbols.push(vec![n(id), t(&format!("s{id}")), t("q"), t("abcde")]);
    }
    let out = build_repomap_cards(&files, &Some(symbols), &None);
    let top = value(&out[0].top_symbols);
    let names: Vec<&str> = top
        .as_array()
        .unwrap()
        .iter()
        .map(|entry| entry["name"].as_str().unwrap())
        .collect();
    assert_eq!(
        names,
        vec!["s5", "s6", "s7", "s8", "s9", "s10", "s11", "s12", "s2", "s1"]
    );
}

#[test]
fn whole_word_basic() {
    assert!(contains_whole_word("call add(1, 2)", "add"));
    assert!(!contains_whole_word("address book", "add"));
    assert!(!contains_whole_word("padded", "add"));
    assert!(contains_whole_word("see Foo::bar", "Foo::bar"));
}

#[test]
fn whole_word_survives_multibyte_chars_after_failed_match() {
    let h = "padded💰 then add() really";
    assert!(contains_whole_word(h, "add"));
}

#[test]
fn whole_word_no_panic_when_only_match_is_inside_emoji_neighbour() {
    let h = "💰💰💰address💰💰💰";
    assert!(!contains_whole_word(h, "add"));
}

#[test]
fn words_are_bounded_by_other_characters() {
    assert!(contains_whole_word("é add é", "add"));
    assert!(contains_whole_word("éaddé", "add"));
    assert!(!contains_whole_word("mod.add", "add"));
    assert!(!contains_whole_word("add", ""));
    assert!(contains_whole_word("x a a", "a a"));
    assert!(!contains_whole_word("xa a a", "a a"));
    assert!(is_ident_char(':') && is_ident_char('.') && is_ident_char('_'));
    assert!(!is_ident_char('é') && !is_ident_char('-'));
}

#[test]
fn mentions_are_linked_once() {
    let symbols = vec![
        vec![t("add"), n(1)],
        vec![t("lib::sub"), n(2)],
        vec![t("unlinked"), n(3)],
    ];
    let nodes = vec![
        vec![t("code_symbol:1"), n(101)],
        vec![t("code_symbol:2"), n(102)],
        vec![t("doc:9"), n(103)],
    ];
    let texts = vec![
        vec![n(201), t("About add"), t("It calls lib::sub and unlinked.")],
        vec![n(202), t(""), t("")],
        vec![n(203), t("Address"), t("lib::sub again")],
    ];
    let (stats, pairs) = link_mentions_bulk(&symbols, &nodes, &Vec::new(), &texts);
    assert_eq!(stats.mentions_added, pairs.len());
    let mut sorted = pairs.clone();
    sorted.sort();
    assert_eq!(sorted, vec![(201, 101), (201, 102), (203, 102)]);
    assert_eq!(
        mention_statements(&pairs).len(),
        mention_statements(&vec![(1, 2), (3, 4)]).len()
    );

    let links: Vec<Vec<Cell>> = pairs.iter().map(|(a, b)| vec![n(*a), n(*b)]).collect();
    let (stats, pairs) = link_mentions_bulk(&symbols, &nodes, &links, &texts);
    assert_eq!(stats.mentions_added, 0);
    assert!(pairs.is_empty());
}

fn options(max_symbols: usize) -> LlmDistillOptions {
    LlmDistillOptions {
        endpoint: "http://localhost:11434/".to_string(),
        model: "m".to_string(),
        max_tokens: 60,
        timeout_secs: 30,
        concurrency: 1,
        max_symbols,
    }
}

#[test]
fn summaries_are_asked_for_by_rank() {
    let cards = vec![
        vec![t("a"), t("fn a()"), t(""), t("h1"), t(""), t("")],
        vec![t("b"), t("fn b()"), t("Says b."), t("h2"), t(""), t("")],
        vec![t("c"), t("fn c()"), t(""), t("h3"), t("Done."), t("m|h3")],
        vec![t("d"), t("fn d()"), t(""), t("h4"), t("Old."), t("m|h0")],
    ];
    let symbols = vec![
        vec![t("a"), n(1), n(1), n(1)],
        vec![t("b"), n(2), n(1), n(2)],
        vec![t("c"), n(2), n(1), n(1)],
        vec![t("d"), n(1), n(2), n(2)],
    ];
    let files = vec![vec![n(1), t("one.rs")], vec![n(2), t("two.rs")]];
    let ranks = vec![
        PathRank {
            path: t("two.rs"),
            rank: NO_RANK + 5,
        },
        PathRank {
            path: t("one.rs"),
            rank: NO_RANK + 1,
        },
    ];
    let sources = Some(vec![vec![t("two.rs"), t("fn b() {\n}\nrest")]]);
    let plan = build_llm_summaries(&cards, &symbols, &files, &ranks, &sources, &options(0));
    assert_eq!(plan.candidates, 4);
    assert_eq!(plan.unchanged, 1);
    let names: Vec<&str> = plan.jobs.iter().map(|j| j.qualified.as_str()).collect();
    assert_eq!(names, vec!["b", "a", "d"]);
    assert_eq!(plan.jobs[0].body_excerpt, "fn b() {\n}");
    assert_eq!(plan.jobs[1].body_excerpt, "");

    let plan = build_llm_summaries(&cards, &symbols, &files, &ranks, &sources, &options(1));
    assert_eq!(plan.jobs.len(), 1);
    assert_eq!(plan.jobs[0].qualified, "b");

    let plan = build_llm_summaries(&cards, &symbols, &files, &ranks, &sources, &options(0));
    let stats = finish_pass(&plan, &vec![Some((10, 2)), None, Some((5, 3))]);
    assert_eq!(stats.candidates, 4);
    assert_eq!(stats.written, 2);
    assert_eq!(stats.failed, 1);
    assert_eq!(stats.unchanged, 1);
    assert_eq!(stats.total_prompt_tokens, 15);
    assert_eq!(stats.total_completion_tokens, 5);
}

#[test]
fn prompts_hold_what_is_known() {
    assert_eq!(
        build_prompt("m::f", "fn f()", "", ""),
        format!("{PROMPT_HEAD}Symbol: m::f\nSignature: fn f()\n")
    );
    assert_eq!(
        build_prompt("m::f", "fn f()", "Does f.", "fn f() {}"),
        format!(
            "{PROMPT_HEAD}Symbol: m::f\nSignature: fn f()\nExisting one-line doc: Does f.\nBody:\nfn f() {{}}"
        )
    );
    assert_eq!(
        build_prompt("q", "s", "", &"x".repeat(4000)).len(),
        build_prompt("q", "s", "", &"x".repeat(3000)).len()
    );
    assert_eq!(
        chat_url("http://localhost:11434//"),
        "http://localhost:11434/v1/chat/completions"
    );
    assert_eq!(model_tag("m", "h"), "m|h");
}

#[test]
fn chat_requests_and_replies() {
    let temperature = json::parse("0.0").unwrap();
    let request = json::to_value(&chat_request("m", "Say so.", 60, temperature));
    assert_eq!(request["model"], "m");
    assert_eq!(request["options"]["num_predict"], 60);
    assert_eq!(request["messages"][0]["role"], "user");
    assert_eq!(request["messages"][0]["content"], "Say so.");
    assert_eq!(request["options"]["temperature"], 0.0);
    assert_eq!(request["stream"], false);

    let reply = json::parse(
        r#"{"choices":[{"message":{"content":" It adds. "}}],"usage":{"prompt_tokens":7,"completion_tokens":3}}"#,
    )
    .unwrap();
    let (content, prompt, completion) = read_reply(&reply);
    assert_eq!(content.trim(), "It adds.");
    assert_eq!((prompt, completion), (7, 3));
    assert_eq!(read_reply(&Json::Null), (String::new(), 0, 0));
    assert_eq!(summary_to_store(" It adds. \n"), Some("It adds.".to_string()));
    assert_eq!(summary_to_store("  \n "), None);
}

#[test]
fn ranks_order_names() {
    let keys: Vec<RankKey> = [(1u64, "z"), (5, "b"), (5, "a"), (9, "m")]
        .iter()
        .map(|(rank, name)| RankKey {
            rank: *rank,
            name: name.to_string(),
        })
        .collect();
    assert_eq!(rank_order(&keys), vec![3, 2, 1, 0]);
}

#[test]
fn maps_keep_the_last_value() {
    let mut m: StrMap<u8> = StrMap::new();
    m.insert("b", 1);
    m.insert("a", 2);
    m.insert("b", 3);
    assert_eq!(m.len(), 2);
    assert_eq!(m.key_at(0), "b");
    assert_eq!(m.value_at(0), &3);
    assert_eq!(m.get("a"), Some(&2));
    assert_eq!(m.get("c"), None);
    assert_eq!(m.find("a"), Some(1));
}
