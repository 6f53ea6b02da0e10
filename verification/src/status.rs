//! What the commands report.

use vstd::prelude::*;
use vstd::string::*;

use crate::config::Config;
use crate::config::KbTable;
use crate::decimal;
use crate::json;
use crate::json::Json;
use crate::json::JsonView;
use crate::kb;
use crate::kb::KbMode;
use crate::kb::KbSpec;
use crate::text;

verus! {

/// What the status says of a source: its knowledge base, and the size of its
/// directory where that exists.
pub open spec fn source_report(
    source: Seq<char>,
    kb_dir: Seq<char>,
    mode: KbMode,
    size: Option<u64>,
) -> Seq<Seq<char>> {
    seq![
        "source : "@ + source,
        "kb     : "@ + kb_dir,
        "mode   : "@ + kb::mode_name(mode),
        match size {
            Some(bytes) => "kb-on-disk : exists ("@ + decimal::digits(bytes as nat)
                + " bytes top-level)"@,
            None => "kb-on-disk : missing — run `init` again"@,
        },
    ]
}

/// What the status says of a source with the knowledge base `spec`, line by
/// line. `size` is the size of its directory, where that exists.
pub fn source_lines(source: &str, spec: &KbSpec, size: Option<u64>) -> (r: Vec<String>)
    ensures
        text::views(r@) == source_report(source@, spec.kb_dir@, spec.mode, size),
{
    let mut out: Vec<String> = Vec::new();
    out.push(text::cat2("source : ", source));
    out.push(text::cat2("kb     : ", spec.kb_dir.as_str()));
    out.push(text::cat2("mode   : ", spec.mode.as_str()));
    match size {
        Some(bytes) => out.push(
            text::cat3(
                "kb-on-disk : exists (",
                decimal::unsigned_text(bytes).as_str(),
                " bytes top-level)",
            ),
        ),
        None => out.push("kb-on-disk : missing — run `init` again".to_string()),
    }
    assert(text::views(out@) =~= source_report(source@, spec.kb_dir@, spec.mode, size));
    out
}

/// The line on a registered knowledge base.
pub open spec fn registered_line(table: KbTable, i: int) -> Seq<char> {
    "  "@ + table.paths()[i] + "  →  "@ + table.stored()[i].kb_dir + "  ("@ + kb::mode_name(
        table.stored()[i].mode,
    ) + ")"@
}

/// What the status says without a source: where the configuration is, the
/// default mode, and every registered knowledge base.
pub open spec fn config_report(config: Config, path: Seq<char>) -> Seq<Seq<char>> {
    seq![
        "config : "@ + path,
        "default-mode : "@ + kb::mode_name(config.default_mode),
        "registered KBs ("@ + decimal::digits(config.kbs.paths().len()) + "):"@,
    ] + Seq::new(config.kbs.paths().len(), |i: int| registered_line(config.kbs, i))
}

/// What the status says without a source, line by line.
pub fn config_lines(config: &Config, path: &str) -> (r: Vec<String>)
    requires
        config.kbs.sound(),
    ensures
        text::views(r@) == config_report(*config, path@),
{
    let mut out: Vec<String> = Vec::new();
    out.push(text::cat2("config : ", path));
    out.push(text::cat2("default-mode : ", config.default_mode.as_str()));
    out.push(
        text::cat3(
            "registered KBs (",
            decimal::unsigned_text(config.kbs.len() as u64).as_str(),
            "):",
        ),
    );
    let ghost head = seq![
        "config : "@ + path@,
        "default-mode : "@ + kb::mode_name(config.default_mode),
        "registered KBs ("@ + decimal::digits(config.kbs.paths().len()) + "):"@,
    ];
    let ghost rest = Seq::new(config.kbs.paths().len(), |i: int| registered_line(config.kbs, i));
    let mut i: usize = 0;
    assert(text::views(out@) =~= head + rest.take(0));
    while i < config.kbs.len()
        invariant
            i <= config.kbs.paths().len(),
            rest == Seq::new(
                config.kbs.paths().len(),
                |i: int| registered_line(config.kbs, i),
            ),
            text::views(out@) == head + rest.take(i as int),
        decreases config.kbs.paths().len() - i,
    {
        let ghost before = out@;
        let stored = config.kbs.kb_at(i);
        let mut line = text::cat5(
            "  ",
            config.kbs.path_at(i),
            "  →  ",
            stored.kb_dir.as_str(),
            "  (",
        );
        line.append(stored.mode.as_str());
        line.append(")");
        out.push(line);
        assert(text::views(out@) =~= text::views(before).push(rest[i as int]));
        assert(head + rest.take(i + 1) =~= (head + rest.take(i as int)).push(rest[i as int]));
        i += 1;
    }
    assert(rest.take(i as int) =~= rest);
    out
}

/// The URL of the discovery endpoint of a server.
pub open spec fn discovery_url(url: Seq<char>) -> Seq<char> {
    let base = text::without_trailing(url, '/');
    if text::finishes_with(base, "/info"@) {
        url
    } else {
        base + "/info"@
    }
}

/// The URL of the discovery endpoint of the server at `url`.
pub fn info_url(url: &str) -> (r: String)
    ensures
        r@ == discovery_url(url@),
{
    let base = text::strip_trailing(url, '/');
    if text::ends_with(base.as_str(), "/info") {
        url.to_string()
    } else {
        text::cat2(base.as_str(), "/info")
    }
}

/// The counters of a result cache.
#[derive(Debug, Clone, Copy, PartialEq, Eq, Structural)]
pub struct CacheCounters {
    pub size: u64,
    pub capacity: u64,
    pub generation: u64,
    pub hits: u64,
    pub misses: u64,
}

/// A counter; zero where it is not there.
pub open spec fn counter(v: JsonView, key: Seq<char>) -> int {
    match json::field(v, key) {
        Some(JsonView::Int(n)) => if 0 <= n <= u64::MAX {
            n
        } else {
            0
        },
        _ => 0,
    }
}

fn read_counter(v: &Json, key: &str) -> (r: u64)
    ensures
        r == counter(v@, key@),
{
    match v.get(key) {
        Some(Json::UInt(n)) => *n,
        Some(Json::Int(n)) => if *n >= 0 {
            *n as u64
        } else {
            0
        },
        _ => 0,
    }
}

/// The counters in what the discovery endpoint says; `None` where it says
/// nothing of a cache.
pub fn read_cache_counters(info: &Json) -> (r: Option<CacheCounters>)
    ensures
        match json::field(info@, "cache"@) {
            Some(JsonView::Obj(m)) => {
                let cache = JsonView::Obj(m);
                r is Some && r->0.size == counter(cache, "size"@) && r->0.capacity == counter(
                    cache,
                    "capacity"@,
                ) && r->0.generation == counter(cache, "generation"@) && r->0.hits == counter(
                    cache,
                    "hits"@,
                ) && r->0.misses == counter(cache, "misses"@)
            },
            _ => r is None,
        },
{
    match info.get("cache") {
        Some(cache) => match cache {
            Json::Object(_) => Some(
                CacheCounters {
                    size: read_counter(cache, "size"),
                    capacity: read_counter(cache, "capacity"),
                    generation: read_counter(cache, "generation"),
                    hits: read_counter(cache, "hits"),
                    misses: read_counter(cache, "misses"),
                },
            ),
            _ => None,
        },
        None => None,
    }
}

/// What the status says of a result cache; `rate` is its hit rate in percent.
pub open spec fn cache_report(c: CacheCounters, rate: Seq<char>) -> Seq<char> {
    "mcp cache : "@ + decimal::digits(c.size as nat) + " / "@ + decimal::digits(c.capacity as nat)
        + " entries, "@ + rate + "% hit rate ("@ + decimal::digits(c.hits as nat) + " hit / "@
        + decimal::digits(c.misses as nat) + " miss), gen "@ + decimal::digits(
        c.generation as nat,
    )
}

/// What the status says of a result cache; `rate` is its hit rate in percent.
pub fn cache_line(c: &CacheCounters, rate: &str) -> (r: String)
    ensures
        r@ == cache_report(*c, rate@),
{
    let mut out = text::cat5(
        "mcp cache : ",
        decimal::unsigned_text(c.size).as_str(),
        " / ",
        decimal::unsigned_text(c.capacity).as_str(),
        " entries, ",
    );
    out.append(rate);
    out.append("% hit rate (");
    out.append(decimal::unsigned_text(c.hits).as_str());
    out.append(" hit / ");
    out.append(decimal::unsigned_text(c.misses).as_str());
    out.append(" miss), gen ");
    out.append(decimal::unsigned_text(c.generation).as_str());
    out
}

/// What `init` reports.
pub open spec fn init_report(
    source: Seq<char>,
    kb_dir: Seq<char>,
    mode: KbMode,
    config_path: Seq<char>,
) -> Seq<Seq<char>> {
    seq![
        "✓ KB created at "@ + kb_dir,
        "✓ source `"@ + source + "` → mode `"@ + kb::mode_name(mode) + "`"@,
    ] + (if mode == KbMode::CoLocated {
        seq!["✓ `.helios-kb/` added to "@ + source + "/.gitignore"@]
    } else {
        Seq::empty()
    }) + seq![
        "✓ config persisted at "@ + config_path,
        ""@,
        "Next: register the MCP server with your agent and start a session."@,
    ]
}

/// What `init` reports of the knowledge base `spec` of `source`, line by line.
pub fn init_lines(source: &str, spec: &KbSpec, config_path: &str) -> (r: Vec<String>)
    ensures
        text::views(r@) == init_report(source@, spec.kb_dir@, spec.mode, config_path@),
{
    let mut out: Vec<String> = Vec::new();
    out.push(text::cat2("✓ KB created at ", spec.kb_dir.as_str()));
    out.push(text::cat5("✓ source `", source, "` → mode `", spec.mode.as_str(), "`"));
    if spec.mode == KbMode::CoLocated {
        out.push(text::cat3("✓ `.helios-kb/` added to ", source, "/.gitignore"));
    }
    out.push(text::cat2("✓ config persisted at ", config_path));
    out.push("".to_string());
    out.push("Next: register the MCP server with your agent and start a session.".to_string());
    assert(text::views(out@) =~= init_report(source@, spec.kb_dir@, spec.mode, config_path@));
    out
}

/// What is reported when the background phase starts.
pub open spec fn background_report(
    pid: u32,
    log_path: Seq<char>,
    progress_path: Seq<char>,
    source: Seq<char>,
) -> Seq<Seq<char>> {
    seq![
        ""@,
        "background quality phase started:"@,
        "  pid       : "@ + decimal::digits(pid as nat),
        "  log       : "@ + log_path,
        "  progress  : "@ + progress_path,
        ""@,
        "Track via:"@,
        "  heliosdb-codekb-mcp status --source "@ + source,
        ""@,
        "MCP queries can already use the index (BM25 + hop-distance);"@,
        "paraphrase quality lifts once the embedding pass finishes."@,
    ]
}

/// What is reported when the background phase starts, line by line.
pub fn background_lines(pid: u32, log_path: &str, progress_path: &str, source: &str) -> (r: Vec<
    String,
>)
    ensures
        text::views(r@) == background_report(pid, log_path@, progress_path@, source@),
{
    let mut out: Vec<String> = Vec::new();
    out.push("".to_string());
    out.push("background quality phase started:".to_string());
    out.push(text::cat2("  pid       : ", decimal::unsigned_text(pid as u64).as_str()));
    out.push(text::cat2("  log       : ", log_path));
    out.push(text::cat2("  progress  : ", progress_path));
    out.push("".to_string());
    out.push("Track via:".to_string());
    out.push(text::cat2("  heliosdb-codekb-mcp status --source ", source));
    out.push("".to_string());
    out.push("MCP queries can already use the index (BM25 + hop-distance);".to_string());
    out.push("paraphrase quality lifts once the embedding pass finishes.".to_string());
    assert(text::views(out@) =~= background_report(pid, log_path@, progress_path@, source@));
    out
}

} // verus!
