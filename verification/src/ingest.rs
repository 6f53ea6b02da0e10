//! The decisions around an ingest run, and its summary.

use vstd::prelude::*;
use vstd::string::*;

use crate::decimal;
use crate::linker::LinkerStats;
use crate::llm::LlmDistillOptions;
use crate::text;

verus! {

/// The flags of an ingest run.
#[derive(Debug, Clone, Copy, PartialEq, Eq, Structural)]
pub struct IngestFlags {
    pub include_binary_docs: bool,
    pub force_reparse: bool,
    pub durable_writes: bool,
    pub with_embeddings: bool,
    pub background_quality: bool,
}

/// The flags of the pass that a process runs itself. The background phase
/// embeds and parses everything anew; a process that leaves the embeddings to
/// the background phase does without them.
pub open spec fn inline_pass(flags: IngestFlags, is_background: bool) -> IngestFlags {
    IngestFlags {
        with_embeddings: is_background || (flags.with_embeddings && !flags.background_quality),
        force_reparse: is_background || flags.force_reparse,
        background_quality: false,
        ..flags
    }
}

/// The flags of the pass that a process runs itself. `is_background` says
/// whether the process is the background phase.
pub fn inline_flags(flags: IngestFlags, is_background: bool) -> (r: IngestFlags)
    ensures
        r == inline_pass(flags, is_background),
{
    if is_background {
        IngestFlags {
            include_binary_docs: flags.include_binary_docs,
            force_reparse: true,
            durable_writes: flags.durable_writes,
            with_embeddings: true,
            background_quality: false,
        }
    } else if flags.background_quality {
        IngestFlags {
            include_binary_docs: flags.include_binary_docs,
            force_reparse: flags.force_reparse,
            durable_writes: flags.durable_writes,
            with_embeddings: false,
            background_quality: false,
        }
    } else {
        IngestFlags {
            include_binary_docs: flags.include_binary_docs,
            force_reparse: flags.force_reparse,
            durable_writes: flags.durable_writes,
            with_embeddings: flags.with_embeddings,
            background_quality: false,
        }
    }
}

/// What a process does after its pass.
#[derive(Debug, Clone, Copy, PartialEq, Eq, Structural)]
pub enum AfterPass {
    /// Marks the progress of the background phase complete.
    Finalize,
    /// Starts the background phase.
    StartBackground,
    Nothing,
}

/// What a process does after its pass: the background phase is finalised and
/// never starts another one.
pub fn after_pass(flags: IngestFlags, is_background: bool) -> (r: AfterPass)
    ensures
        is_background ==> r == AfterPass::Finalize,
        !is_background && flags.background_quality ==> r == AfterPass::StartBackground,
        !is_background && !flags.background_quality ==> r == AfterPass::Nothing,
{
    if is_background {
        AfterPass::Finalize
    } else if flags.background_quality {
        AfterPass::StartBackground
    } else {
        AfterPass::Nothing
    }
}

/// The arguments of the process of the background phase.
pub open spec fn background_arguments(source: Seq<char>, durable_writes: bool) -> Seq<Seq<char>> {
    let base = seq!["ingest"@, "--source"@, source, "--with-embeddings"@, "--force"@];
    if durable_writes {
        base.push("--durable-writes"@)
    } else {
        base
    }
}

/// The arguments of the process of the background phase.
pub fn background_args(source: &str, durable_writes: bool) -> (r: Vec<String>)
    ensures
        text::views(r@) == background_arguments(source@, durable_writes),
{
    let mut out: Vec<String> = Vec::new();
    out.push("ingest".to_string());
    out.push("--source".to_string());
    out.push(source.to_string());
    out.push("--with-embeddings".to_string());
    out.push("--force".to_string());
    if durable_writes {
        out.push("--durable-writes".to_string());
    }
    assert(text::views(out@) =~= background_arguments(source@, durable_writes));
    out
}

/// The options of the summary pass, from the flags; `None` where it is off.
/// At least one request is in flight.
pub fn build_llm_distill_opts(
    enabled: bool,
    endpoint: &str,
    model: &str,
    concurrency: usize,
    max_symbols: usize,
) -> (r: Option<LlmDistillOptions>)
    ensures
        !enabled ==> r is None,
        enabled ==> r is Some && r->0.endpoint@ == endpoint@ && r->0.model@ == model@
            && r->0.max_tokens == 80 && r->0.timeout_secs == 60 && r->0.concurrency == (
        if concurrency == 0 {
            1
        } else {
            concurrency
        }) && r->0.max_symbols == max_symbols,
{
    if !enabled {
        return None;
    }
    Some(
        LlmDistillOptions {
            endpoint: endpoint.to_string(),
            model: model.to_string(),
            max_tokens: 80,
            timeout_secs: 60,
            concurrency: if concurrency == 0 { 1 } else { concurrency },
            max_symbols,
        },
    )
}

/// What the code index did.
pub struct CodeStats {
    pub files_seen: u64,
    pub files_parsed: u64,
    pub files_unchanged: u64,
    pub files_skipped: u64,
    pub symbols_written: u64,
    pub refs_written: u64,
    pub parse_elapsed_ms: u64,
    pub write_elapsed_ms: u64,
    pub parse_workers: u64,
    pub chunks_processed: u64,
}

/// What the projection of documents did.
pub struct DocStats {
    pub nodes_added: u64,
    pub edges_added: u64,
    pub rows_seen: u64,
    pub rows_skipped: u64,
}

/// What an ingest run did.
pub struct IngestSummary {
    pub files_seen: u64,
    pub code_upserts: u64,
    pub doc_upserts: u64,
    pub md_doc_upserts: u64,
    pub binary_upserts: u64,
    pub skipped: u64,
    pub read_errors: u64,
    pub elapsed_ms: u64,
    pub read_error_samples: Vec<String>,
    pub code: Option<CodeStats>,
    pub docs: Option<DocStats>,
    pub docs_md: Option<DocStats>,
    pub links: Option<LinkerStats>,
}

/// A number as text.
pub open spec fn number(x: u64) -> Seq<char> {
    decimal::digits(x as nat)
}

/// Appends a label and a number.
fn count(s: &mut String, label: &str, x: u64)
    ensures
        final(s)@ == old(s)@ + label@ + number(x),
{
    s.append(label);
    s.append(decimal::unsigned_text(x).as_str());
}

/// The line on the number of upserts.
pub open spec fn upsert_line(s: IngestSummary) -> Seq<char> {
    "  upserted      : "@ + number(s.code_upserts) + " code, "@ + number(s.doc_upserts) + " text, "@ + number(
        s.md_doc_upserts,
    ) + " markdown, "@ + number(s.binary_upserts) + " binary-doc"@
}

/// The line on what was left out.
pub open spec fn skipped_line(s: IngestSummary) -> Seq<char> {
    "  skipped       : "@ + number(s.skipped) + "  read errors: "@ + number(s.read_errors)
}

/// The lines on what the code index did.
pub open spec fn code_lines(c: CodeStats) -> Seq<Seq<char>> {
    seq![
        "  code_index    : files_seen="@ + number(c.files_seen) + " parsed="@ + number(c.files_parsed)
            + " unchanged="@ + number(c.files_unchanged) + " skipped="@ + number(c.files_skipped)
            + " symbols="@ + number(c.symbols_written) + " refs="@ + number(c.refs_written),
        "  code_index ms : parse="@ + number(c.parse_elapsed_ms) + " write="@ + number(c.write_elapsed_ms)
            + " workers="@ + number(c.parse_workers) + " chunks="@ + number(c.chunks_processed),
    ]
}

/// The line on what the projection of documents did.
pub open spec fn doc_line(label: Seq<char>, d: DocStats) -> Seq<char> {
    label + number(d.nodes_added) + " edges="@ + number(d.edges_added) + " rows_seen="@ + number(d.rows_seen)
        + " rows_skipped="@ + number(d.rows_skipped)
}

/// The line on what the linker did.
pub open spec fn link_line(l: LinkerStats) -> Seq<char> {
    "  linker        : nodes_scanned="@ + decimal::digits(l.nodes_scanned as nat)
        + " mentions_added="@ + decimal::digits(l.mentions_added as nat) + " candidates="@
        + decimal::digits(l.candidates_seen as nat)
}

/// The lines on files that could not be read.
pub open spec fn error_lines(s: IngestSummary) -> Seq<Seq<char>> {
    let samples = s.read_error_samples@;
    if samples.len() == 0 {
        Seq::empty()
    } else {
        seq![
            "  read error samples ("@ + decimal::digits(samples.len()) + " of "@ + number(
                s.read_errors,
            ) + "):"@,
        ] + Seq::new(samples.len(), |i: int| "    "@ + samples[i]@)
    }
}

/// The summary of an ingest run, line by line.
pub open spec fn summary(
    s: IngestSummary,
    source: Seq<char>,
    kb_dir: Seq<char>,
    durable_writes: bool,
) -> Seq<Seq<char>> {
    seq![
        "ingest summary"@,
        "  source        : "@ + source,
        "  kb            : "@ + kb_dir,
        "  wal sync      : "@ + if durable_writes {
            "Sync (durable)"@
        } else {
            "Async (fast)"@
        },
        "  files seen    : "@ + number(s.files_seen),
        upsert_line(s),
        skipped_line(s),
        "  elapsed       : "@ + number(s.elapsed_ms) + " ms"@,
    ] + error_lines(s) + (match s.code {
        Some(c) => code_lines(c),
        None => Seq::empty(),
    }) + (match s.docs {
        Some(d) => seq![doc_line("  graph_rag row : nodes="@, d)],
        None => Seq::empty(),
    }) + (match s.docs_md {
        Some(d) => seq![
            doc_line("  graph_rag md  : nodes="@, d)
                + "  (heading-chunked DocSection + PART_OF)"@,
        ],
        None => Seq::empty(),
    }) + (match s.links {
        Some(l) => seq![link_line(l)],
        None => Seq::empty(),
    })
}

/// Appends a line.
fn add_line(out: &mut Vec<String>, line: String)
    ensures
        text::views(final(out)@) == text::views(old(out)@) + seq![line@],
{
    let ghost before = out@;
    out.push(line);
    assert(text::views(out@) =~= text::views(before) + seq![line@]);
}

fn render_doc_line(label: &str, d: &DocStats) -> (r: String)
    ensures
        r@ == doc_line(label@, *d),
{
    let mut line = label.to_string();
    line.append(decimal::unsigned_text(d.nodes_added).as_str());
    count(&mut line, " edges=", d.edges_added);
    count(&mut line, " rows_seen=", d.rows_seen);
    count(&mut line, " rows_skipped=", d.rows_skipped);
    line
}

fn add_code_lines(out: &mut Vec<String>, c: &CodeStats)
    ensures
        text::views(final(out)@) == text::views(old(out)@) + code_lines(*c),
{
    let ghost before = out@;
    let mut line = "  code_index    : files_seen=".to_string();
    line.append(decimal::unsigned_text(c.files_seen).as_str());
    count(&mut line, " parsed=", c.files_parsed);
    count(&mut line, " unchanged=", c.files_unchanged);
    count(&mut line, " skipped=", c.files_skipped);
    count(&mut line, " symbols=", c.symbols_written);
    count(&mut line, " refs=", c.refs_written);
    add_line(out, line);
    let mut timing = "  code_index ms : parse=".to_string();
    timing.append(decimal::unsigned_text(c.parse_elapsed_ms).as_str());
    count(&mut timing, " write=", c.write_elapsed_ms);
    count(&mut timing, " workers=", c.parse_workers);
    count(&mut timing, " chunks=", c.chunks_processed);
    add_line(out, timing);
    assert(text::views(out@) =~= text::views(before) + code_lines(*c));
}

fn add_error_lines(out: &mut Vec<String>, s: &IngestSummary)
    ensures
        text::views(final(out)@) == text::views(old(out)@) + error_lines(*s),
{
    let ghost before = out@;
    let samples = &s.read_error_samples;
    if samples.len() == 0 {
        assert(text::views(before) + Seq::<Seq<char>>::empty() =~= text::views(before));
        return;
    }
    let mut head = text::cat3(
        "  read error samples (",
        decimal::unsigned_text(samples.len() as u64).as_str(),
        " of ",
    );
    head.append(decimal::unsigned_text(s.read_errors).as_str());
    head.append("):");
    let ghost title = head@;
    add_line(out, head);
    let ghost listed = Seq::new(samples@.len(), |i: int| "    "@ + samples@[i]@);
    let mut i: usize = 0;
    assert(text::views(out@) =~= text::views(before) + (seq![title] + listed.take(0)));
    while i < samples.len()
        invariant
            i <= samples@.len(),
            listed == Seq::new(samples@.len(), |i: int| "    "@ + samples@[i]@),
            text::views(out@) == text::views(before) + (seq![title] + listed.take(i as int)),
        decreases samples@.len() - i,
    {
        add_line(out, text::cat2("    ", samples[i].as_str()));
        assert(listed.take(i + 1) =~= listed.take(i as int).push(listed[i as int]));
        assert(text::views(out@) =~= text::views(before) + (seq![title] + listed.take(i + 1)));
        i += 1;
    }
    assert(listed.take(i as int) =~= listed);
}

/// The summary of an ingest run, line by line.
pub fn summary_lines(
    s: &IngestSummary,
    source: &str,
    kb_dir: &str,
    durable_writes: bool,
) -> (r: Vec<String>)
    ensures
        text::views(r@) == summary(*s, source@, kb_dir@, durable_writes),
{
    let mut out: Vec<String> = Vec::new();
    out.push("ingest summary".to_string());
    out.push(text::cat2("  source        : ", source));
    out.push(text::cat2("  kb            : ", kb_dir));
    let sync = if durable_writes { "Sync (durable)" } else { "Async (fast)" };
    out.push(text::cat2("  wal sync      : ", sync));
    let mut seen = String::new();
    seen.append("  files seen    : ");
    seen.append(decimal::unsigned_text(s.files_seen).as_str());
    assert(seen@ =~= "  files seen    : "@ + number(s.files_seen));
    out.push(seen);
    let mut upserted = "  upserted      : ".to_string();
    upserted.append(decimal::unsigned_text(s.code_upserts).as_str());
    count(&mut upserted, " code, ", s.doc_upserts);
    count(&mut upserted, " text, ", s.md_doc_upserts);
    count(&mut upserted, " markdown, ", s.binary_upserts);
    upserted.append(" binary-doc");
    out.push(upserted);
    let mut skipped = "  skipped       : ".to_string();
    skipped.append(decimal::unsigned_text(s.skipped).as_str());
    count(&mut skipped, "  read errors: ", s.read_errors);
    out.push(skipped);
    out.push(
        text::cat3(
            "  elapsed       : ",
            decimal::unsigned_text(s.elapsed_ms).as_str(),
            " ms",
        ),
    );
    let ghost head = seq![
        "ingest summary"@,
        "  source        : "@ + source@,
        "  kb            : "@ + kb_dir@,
        "  wal sync      : "@ + if durable_writes {
            "Sync (durable)"@
        } else {
            "Async (fast)"@
        },
        "  files seen    : "@ + number(s.files_seen),
        upsert_line(*s),
        skipped_line(*s),
        "  elapsed       : "@ + number(s.elapsed_ms) + " ms"@,
    ];
    assert(text::views(out@) =~= head);
    add_error_lines(&mut out, s);
    let ghost a = text::views(out@);
    match &s.code {
        Some(c) => add_code_lines(&mut out, c),
        None => {
            assert(a + Seq::<Seq<char>>::empty() =~= a);
        },
    }
    let ghost b = text::views(out@);
    match &s.docs {
        Some(d) => add_line(&mut out, render_doc_line("  graph_rag row : nodes=", d)),
        None => {
            assert(b + Seq::<Seq<char>>::empty() =~= b);
        },
    }
    let ghost c = text::views(out@);
    match &s.docs_md {
        Some(d) => {
            let mut line = render_doc_line("  graph_rag md  : nodes=", d);
            line.append("  (heading-chunked DocSection + PART_OF)");
            add_line(&mut out, line);
        },
        None => {
            assert(c + Seq::<Seq<char>>::empty() =~= c);
        },
    }
    let ghost d = text::views(out@);
    match &s.links {
        Some(l) => {
            let mut line = "  linker        : nodes_scanned=".to_string();
            line.append(decimal::unsigned_text(l.nodes_scanned as u64).as_str());
            count(&mut line, " mentions_added=", l.mentions_added as u64);
            count(&mut line, " candidates=", l.candidates_seen as u64);
            add_line(&mut out, line);
        },
        None => {
            assert(d + Seq::<Seq<char>>::empty() =~= d);
        },
    }
    out
}

} // verus!
