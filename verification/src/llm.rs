//! Symbol summaries by a language model: which symbols to ask about, what to
//! ask, and what the reply says.

use vstd::prelude::*;
use vstd::string::*;

use crate::cells;
use crate::cells::Cell;
use crate::distill;
use crate::json;
use crate::json::Json;
use crate::json::JsonView;
use crate::ranking;
use crate::ranking::RankKey;
use crate::strmap;
use crate::strmap::StrMap;
use crate::text;


verus! {

broadcast use vstd::std_specs::hash::group_hash_axioms;

/// How a pass over the symbol cards asks the model.
#[derive(Debug, Clone)]
pub struct LlmDistillOptions {
    /// The base URL of the endpoint.
    pub endpoint: String,
    pub model: String,
    /// The most tokens of a summary.
    pub max_tokens: u32,
    /// The seconds that a request may take; zero for no limit.
    pub timeout_secs: u64,
    /// The number of requests in flight.
    pub concurrency: usize,
    /// The most symbols in one pass; zero for no limit.
    pub max_symbols: usize,
}

impl Default for LlmDistillOptions {
    fn default() -> (r: Self)
        ensures
            r.endpoint@ == "http://ollama:11434"@,
            r.model@ == "qwen3-coder:30b"@,
            r.max_tokens == 80,
            r.timeout_secs == 60,
            r.concurrency == 4,
            r.max_symbols == 0,
    {
        LlmDistillOptions {
            endpoint: "http://ollama:11434".to_string(),
            model: "qwen3-coder:30b".to_string(),
            max_tokens: 80,
            timeout_secs: 60,
            concurrency: 4,
            max_symbols: 0,
        }
    }
}

/// What a pass over the symbol cards did.
#[derive(Debug, Clone)]
pub struct LlmDistillStats {
    pub candidates: usize,
    pub written: usize,
    pub unchanged: usize,
    pub failed: usize,
    pub total_prompt_tokens: u64,
    pub total_completion_tokens: u64,
}

impl Default for LlmDistillStats {
    /// Nothing done.
    fn default() -> (r: Self)
        ensures
            r == (LlmDistillStats {
                candidates: 0,
                written: 0,
                unchanged: 0,
                failed: 0,
                total_prompt_tokens: 0,
                total_completion_tokens: 0,
            }),
    {
        LlmDistillStats {
            candidates: 0,
            written: 0,
            unchanged: 0,
            failed: 0,
            total_prompt_tokens: 0,
            total_completion_tokens: 0,
        }
    }
}

/// A row of the file cards: the rank comes as a number that grows with it.
pub struct PathRank {
    pub path: Cell,
    pub rank: u64,
}

/// Where a symbol stands: its file, its first and its last line.
pub struct SymbolSpan {
    pub file: i64,
    pub first: i64,
    pub last: i64,
}

/// The integer in column `idx` of a row; zero where there is none.
pub open spec fn int_or_zero(row: Seq<Cell>, idx: int) -> int {
    match cells::int_at(row, idx) {
        Some(n) => n,
        None => 0,
    }
}

fn read_int(row: &Vec<Cell>, idx: usize) -> (r: i64)
    ensures
        r == int_or_zero(row@, idx as int),
{
    match cells::tuple_int(row, idx) {
        Some(n) => n,
        None => 0,
    }
}

/// Where each symbol stands, from the rows (qualified name, file, first line,
/// last line); of two rows with one name the later counts.
pub open spec fn span_table(rows: Seq<Vec<Cell>>) -> Map<Seq<char>, (int, int, int)>
    decreases rows.len(),
{
    if rows.len() == 0 {
        Map::empty()
    } else {
        let before = span_table(rows.drop_last());
        let row = rows.last()@;
        let name = cells::text_at(row, 0);
        if name.len() == 0 {
            before
        } else {
            before.insert(name, (int_or_zero(row, 1), int_or_zero(row, 2), int_or_zero(row, 3)))
        }
    }
}

/// The rank of each file; of two rows with one path the later counts.
pub open spec fn rank_table(rows: Seq<PathRank>) -> Map<Seq<char>, u64>
    decreases rows.len(),
{
    if rows.len() == 0 {
        Map::empty()
    } else {
        let before = rank_table(rows.drop_last());
        match rows.last().path {
            Cell::Text(p) => if p@.len() == 0 {
                before
            } else {
                before.insert(p@, rows.last().rank)
            },
            _ => before,
        }
    }
}

/// Whether a map holds where each symbol stands.
pub open spec fn holds_spans(
    m: StrMap<SymbolSpan>,
    table: Map<Seq<char>, (int, int, int)>,
) -> bool {
    m.sound() && forall|key: Seq<char>|
        #![trigger m.has(key)]
        m.has(key) == table.dom().contains(key) && (m.has(key) ==> (
        m.at(key).file as int, m.at(key).first as int, m.at(key).last as int) == table[key])
}

/// Whether a map holds the rank of each file.
pub open spec fn holds_ranks(m: StrMap<u64>, table: Map<Seq<char>, u64>) -> bool {
    m.sound() && forall|key: Seq<char>|
        #![trigger m.has(key)]
        m.has(key) == table.dom().contains(key) && (m.has(key) ==> m.at(key) == table[key])
}

/// Where each symbol stands.
fn read_spans(rows: &Vec<Vec<Cell>>) -> (r: StrMap<SymbolSpan>)
    ensures
        holds_spans(r, span_table(rows@)),
{
    let mut out: StrMap<SymbolSpan> = StrMap::new();
    let mut i: usize = 0;
    assert(rows@.take(0) =~= Seq::empty());
    while i < rows.len()
        invariant
            i <= rows@.len(),
            holds_spans(out, span_table(rows@.take(i as int))),
        decreases rows@.len() - i,
    {
        assert(rows@.take(i + 1).drop_last() =~= rows@.take(i as int));
        let row = &rows[i];
        let name = cells::tuple_str(row, 0);
        if text::chars_of(name.as_str()).len() > 0 {
            let ghost before = out;
            let span = SymbolSpan {
                file: read_int(row, 1),
                first: read_int(row, 2),
                last: read_int(row, 3),
            };
            out.insert(name.as_str(), span);
            assert forall|other: Seq<char>|
                #![trigger out.has(other)]
                out.has(other) == (before.has(other) || other == name@) && (out.has(other)
                    ==> out.at(other) == (if other == name@ {
                    span
                } else {
                    before.at(other)
                })) by {
                strmap::lemma_insert(before, out, name@, span, other);
            }
        }
        i += 1;
    }
    assert(rows@.take(i as int) =~= rows@);
    out
}

/// The rank of each file.
fn read_ranks(rows: &Vec<PathRank>) -> (r: StrMap<u64>)
    ensures
        holds_ranks(r, rank_table(rows@)),
{
    let mut out: StrMap<u64> = StrMap::new();
    let mut i: usize = 0;
    assert(rows@.take(0) =~= Seq::empty());
    while i < rows.len()
        invariant
            i <= rows@.len(),
            holds_ranks(out, rank_table(rows@.take(i as int))),
        decreases rows@.len() - i,
    {
        assert(rows@.take(i + 1).drop_last() =~= rows@.take(i as int));
        let row = &rows[i];
        if let Cell::Text(path) = &row.path {
            if text::chars_of(path.as_str()).len() > 0 {
                let ghost before = out;
                out.insert(path.as_str(), row.rank);
                assert forall|other: Seq<char>|
                    #![trigger out.has(other)]
                    out.has(other) == (before.has(other) || other == path@) && (out.has(other)
                        ==> out.at(other) == (if other == path@ {
                        row.rank
                    } else {
                        before.at(other)
                    })) by {
                    strmap::lemma_insert(before, out, path@, row.rank, other);
                }
            }
        }
        i += 1;
    }
    assert(rows@.take(i as int) =~= rows@);
    out
}

/// A symbol card with where its symbol stands and how its file is ranked.
pub struct CardSnap {
    pub qualified: String,
    pub signature: String,
    pub doc1l: String,
    pub content_hash: String,
    pub llm_summary: String,
    pub llm_model: String,
    pub path: String,
    pub line_start: i64,
    pub line_end: i64,
    pub rank: u64,
}

/// What a snapshot of a card holds.
pub struct SnapView {
    pub qualified: Seq<char>,
    pub signature: Seq<char>,
    pub doc1l: Seq<char>,
    pub content_hash: Seq<char>,
    pub llm_summary: Seq<char>,
    pub llm_model: Seq<char>,
    pub path: Seq<char>,
    pub line_start: int,
    pub line_end: int,
    pub rank: u64,
}

impl View for CardSnap {
    type V = SnapView;

    open spec fn view(&self) -> SnapView {
        SnapView {
            qualified: self.qualified@,
            signature: self.signature@,
            doc1l: self.doc1l@,
            content_hash: self.content_hash@,
            llm_summary: self.llm_summary@,
            llm_model: self.llm_model@,
            path: self.path@,
            line_start: self.line_start as int,
            line_end: self.line_end as int,
            rank: self.rank,
        }
    }
}

/// The snapshot of the card in a row (qualified name, signature,
/// documentation line, content hash, summary, model). A card without a name,
/// without a symbol or without a known file has none.
pub open spec fn snap_of(
    row: Seq<Cell>,
    spans: Map<Seq<char>, (int, int, int)>,
    paths: Map<int, Seq<char>>,
    ranks: Map<Seq<char>, u64>,
) -> Option<SnapView> {
    let name = cells::text_at(row, 0);
    if name.len() == 0 || !spans.dom().contains(name) || !paths.dom().contains(spans[name].0) {
        None
    } else {
        let path = paths[spans[name].0];
        Some(
            SnapView {
                qualified: name,
                signature: cells::text_at(row, 1),
                doc1l: cells::text_at(row, 2),
                content_hash: cells::text_at(row, 3),
                llm_summary: cells::text_at(row, 4),
                llm_model: cells::text_at(row, 5),
                path,
                line_start: spans[name].1,
                line_end: spans[name].2,
                rank: if ranks.dom().contains(path) {
                    ranks[path]
                } else {
                    ranking::NO_RANK
                },
            },
        )
    }
}

/// The snapshots of the cards in some rows, in their order.
pub open spec fn snaps_of(
    rows: Seq<Vec<Cell>>,
    spans: Map<Seq<char>, (int, int, int)>,
    paths: Map<int, Seq<char>>,
    ranks: Map<Seq<char>, u64>,
) -> Seq<SnapView>
    decreases rows.len(),
{
    if rows.len() == 0 {
        Seq::empty()
    } else {
        let before = snaps_of(rows.drop_last(), spans, paths, ranks);
        match snap_of(rows.last()@, spans, paths, ranks) {
            Some(s) => before.push(s),
            None => before,
        }
    }
}

/// What some snapshots hold.
pub open spec fn snap_views(snaps: Seq<CardSnap>) -> Seq<SnapView> {
    Seq::new(snaps.len(), |i: int| snaps[i]@)
}

/// The snapshots of the cards in some rows, in their order.
fn read_snaps(
    rows: &Vec<Vec<Cell>>,
    symbols: &Vec<Vec<Cell>>,
    files: &Vec<Vec<Cell>>,
    file_ranks: &Vec<PathRank>,
) -> (r: Vec<CardSnap>)
    ensures
        snap_views(r@) == snaps_of(
            rows@,
            span_table(symbols@),
            distill::path_table(files@),
            rank_table(file_ranks@),
        ),
{
    let ghost span_map = span_table(symbols@);
    let ghost path_map = distill::path_table(files@);
    let ghost rank_map = rank_table(file_ranks@);
    let spans = read_spans(symbols);
    let paths = distill::read_paths(files);
    let ranks = read_ranks(file_ranks);
    let mut out: Vec<CardSnap> = Vec::new();
    let mut i: usize = 0;
    assert(rows@.take(0) =~= Seq::empty());
    assert(snap_views(out@) =~= Seq::empty());
    while i < rows.len()
        invariant
            i <= rows@.len(),
            holds_spans(spans, span_map),
            distill::holds_paths(paths@, path_map),
            holds_ranks(ranks, rank_map),
            snap_views(out@) == snaps_of(rows@.take(i as int), span_map, path_map, rank_map),
        decreases rows@.len() - i,
    {
        let row = &rows[i];
        let ghost before = out@;
        assert(rows@.take(i + 1).drop_last() =~= rows@.take(i as int));
        let qualified = cells::tuple_str(row, 0);
        assert(spans.has(qualified@) == span_map.dom().contains(qualified@));
        if text::chars_of(qualified.as_str()).len() > 0 {
            if let Some(span) = spans.get(qualified.as_str()) {
                assert(paths@.dom().contains(span.file) == path_map.dom().contains(
                    span.file as int,
                ));
                if let Some(path) = paths.get(&span.file) {
                    assert(ranks.has(path@) == rank_map.dom().contains(path@));
                    let rank = match ranks.get(path.as_str()) {
                        Some(n) => *n,
                        None => ranking::NO_RANK,
                    };
                    let snap = CardSnap {
                        qualified,
                        signature: cells::tuple_str(row, 1),
                        doc1l: cells::tuple_str(row, 2),
                        content_hash: cells::tuple_str(row, 3),
                        llm_summary: cells::tuple_str(row, 4),
                        llm_model: cells::tuple_str(row, 5),
                        path: path.clone(),
                        line_start: span.first,
                        line_end: span.last,
                        rank,
                    };
                    assert(snap_of(row@, span_map, path_map, rank_map) == Some(snap@));
                    out.push(snap);
                    assert(snap_views(out@) =~= snap_views(before).push(snap@));
                }
            }
        }
        i += 1;
    }
    assert(rows@.take(i as int) =~= rows@);
    out
}

/// The tag of a summary: the model and the content that it was made from.
pub open spec fn tag(model: Seq<char>, content_hash: Seq<char>) -> Seq<char> {
    model + "|"@ + content_hash
}

/// The tag of a summary: the model and the content that it was made from.
pub fn model_tag(model: &str, content_hash: &str) -> (r: String)
    ensures
        r@ == tag(model@, content_hash@),
{
    text::cat3(model, "|", content_hash)
}

/// Whether a card has a summary by this model from its present content.
pub open spec fn is_summarised(snap: SnapView, model: Seq<char>) -> bool {
    snap.llm_summary.len() > 0 && snap.llm_model == tag(model, snap.content_hash)
}

/// A line number as a place in a file; one that is no such number lies behind
/// every line.
pub open spec fn line_number(n: int) -> int {
    if 0 <= n <= usize::MAX {
        n
    } else {
        usize::MAX as int
    }
}

fn to_line_number(n: i64) -> (r: usize)
    ensures
        r == line_number(n as int),
{
    if n < 0 || n as u64 > usize::MAX as u64 {
        usize::MAX
    } else {
        n as usize
    }
}

/// The lines `first` to `last` of a file, counted from one; at most sixty of them.
pub open spec fn excerpt(lines: Seq<Seq<char>>, first: int, last: int) -> Seq<char> {
    let from = line_number(first) - 1;
    let end = line_number(last);
    let most = if from + 60 < lines.len() {
        from + 60
    } else {
        lines.len() as int
    };
    let to = if end < most {
        end
    } else {
        most
    };
    if from < 0 || end <= from || from > to {
        Seq::empty()
    } else {
        text::joined(lines.subrange(from, to), "\n"@)
    }
}

/// The source of the symbol of a card.
pub open spec fn body_of(snap: SnapView, sources: Map<Seq<char>, Seq<char>>) -> Seq<char> {
    if sources.dom().contains(snap.path) {
        excerpt(text::lines_of(sources[snap.path]), snap.line_start, snap.line_end)
    } else {
        Seq::empty()
    }
}

/// The lines of an excerpt are those of the symbol, from its first line on: up
/// to its last line, or the end of the file, and no more than sixty.
pub proof fn excerpts_show_the_lines_of_the_symbol(
    lines: Seq<Seq<char>>,
    first: int,
    last: int,
    j: int,
)
    requires
        lines.len() <= usize::MAX,
        forall|i: int| 0 <= i < lines.len() ==> !(#[trigger] lines[i]).contains('\n'),
        1 <= first <= last,
        first <= lines.len(),
    ensures
        ({
            let shown = text::split_at(excerpt(lines, first, last), '\n');
            &&& last <= lines.len() && last - first < 60 ==> shown.len() == last - first + 1
            &&& last <= lines.len() && last - first >= 60 ==> shown.len() == 60
            &&& last > lines.len() && lines.len() - first < 60 ==> shown.len() == lines.len()
                - first + 1
            &&& last > lines.len() && lines.len() - first >= 60 ==> shown.len() == 60
            &&& 0 <= j < shown.len() ==> shown[j] == lines[first - 1 + j]
        }),
{
    let count = {
        let end = if last <= lines.len() {
            last
        } else {
            lines.len() as int
        };
        if end - first < 60 {
            end - first + 1
        } else {
            60
        }
    };
    let some = lines.subrange(first - 1, first - 1 + count);
    reveal_strlit("\n");
    assert("\n"@ =~= seq!['\n']);
    assert forall|i: int| 0 <= i < some.len() implies !(#[trigger] some[i]).contains('\n') by {
        assert(some[i] == lines[first - 1 + i]);
    }
    assert(excerpt(lines, first, last) == text::joined(some, "\n"@));
    text::joined_parts_split_again(some, '\n');
}

/// The request for the summary of a card shows the card's own signature and
/// documentation line, and the lines of its symbol in the source of its file.
pub proof fn requests_show_the_source_of_their_symbol(
    snap: SnapView,
    sources: Map<Seq<char>, Seq<char>>,
    j: int,
)
    requires
        sources.dom().contains(snap.path),
        1 <= snap.line_start <= snap.line_end <= text::lines_of(sources[snap.path]).len(),
        text::lines_of(sources[snap.path]).len() <= usize::MAX,
        0 <= j <= snap.line_end - snap.line_start,
        j < 60,
    ensures
        job_of(snap, sources).qualified == snap.qualified,
        job_of(snap, sources).signature == snap.signature,
        job_of(snap, sources).doc1l == snap.doc1l,
        job_of(snap, sources).content_hash == snap.content_hash,
        j < text::split_at(job_of(snap, sources).body_excerpt, '\n').len(),
        text::split_at(job_of(snap, sources).body_excerpt, '\n')[j] == text::lines_of(
            sources[snap.path],
        )[snap.line_start - 1 + j],
{
    let lines = text::lines_of(sources[snap.path]);
    assert forall|i: int| 0 <= i < lines.len() implies !(#[trigger] lines[i]).contains('\n') by {
        text::lines_hold_no_line_feed(sources[snap.path], i);
    }
    excerpts_show_the_lines_of_the_symbol(lines, snap.line_start, snap.line_end, j);
}

/// The lines `first` to `last` of a file, counted from one; at most sixty of them.
fn read_excerpt(lines: &Vec<String>, first: i64, last: i64) -> (r: String)
    ensures
        r@ == excerpt(text::views(lines@), first as int, last as int),
{
    let start = to_line_number(first);
    let end = to_line_number(last);
    if start == 0 || end < start {
        return String::new();
    }
    let from = start - 1;
    let most = if lines.len() > 60 && from < lines.len() - 60 { from + 60 } else { lines.len() };
    let to = if end < most { end } else { most };
    if from > to {
        return String::new();
    }
    text::join(lines, from, to, "\n")
}

/// A request for a summary.
#[derive(Debug, Clone)]
pub struct Job {
    pub qualified: String,
    pub signature: String,
    pub doc1l: String,
    pub content_hash: String,
    pub body_excerpt: String,
}

/// What a request for a summary holds.
pub struct JobView {
    pub qualified: Seq<char>,
    pub signature: Seq<char>,
    pub doc1l: Seq<char>,
    pub content_hash: Seq<char>,
    pub body_excerpt: Seq<char>,
}

impl View for Job {
    type V = JobView;

    open spec fn view(&self) -> JobView {
        JobView {
            qualified: self.qualified@,
            signature: self.signature@,
            doc1l: self.doc1l@,
            content_hash: self.content_hash@,
            body_excerpt: self.body_excerpt@,
        }
    }
}

/// The request for the summary of a card.
pub open spec fn job_of(snap: SnapView, sources: Map<Seq<char>, Seq<char>>) -> JobView {
    JobView {
        qualified: snap.qualified,
        signature: snap.signature,
        doc1l: snap.doc1l,
        content_hash: snap.content_hash,
        body_excerpt: body_of(snap, sources),
    }
}

/// Whether there is room for one more request.
pub open spec fn has_room(jobs: nat, most: int) -> bool {
    most == 0 || jobs < most
}

/// The requests for the first `n` of some cards, and the number of cards that
/// have a summary already. Once there is no room, the rest is left for later.
pub open spec fn jobs_for(
    snaps: Seq<SnapView>,
    n: int,
    model: Seq<char>,
    most: int,
    sources: Map<Seq<char>, Seq<char>>,
) -> (Seq<JobView>, int)
    decreases n,
{
    if n <= 0 {
        (Seq::empty(), 0)
    } else {
        let (jobs, summarised) = jobs_for(snaps, n - 1, model, most, sources);
        if !has_room(jobs.len(), most) {
            (jobs, summarised)
        } else if is_summarised(snaps[n - 1], model) {
            (jobs, summarised + 1)
        } else {
            (jobs.push(job_of(snaps[n - 1], sources)), summarised)
        }
    }
}

/// Cards in the order of their places.
pub open spec fn arranged(snaps: Seq<SnapView>, places: Seq<usize>) -> Seq<SnapView> {
    Seq::new(places.len(), |i: int| snaps[places[i] as int])
}

/// Whether `a` is asked about before `b`: by falling rank of the file, then
/// by qualified name, then by place.
pub open spec fn asked_first(snaps: Seq<SnapView>, a: int, b: int) -> bool {
    snaps[a].rank > snaps[b].rank || (snaps[a].rank == snaps[b].rank && (text::comes_before(
        snaps[a].qualified,
        snaps[b].qualified,
    ) || (snaps[a].qualified == snaps[b].qualified && a < b)))
}

/// Whether `places` holds every place of some cards once, in the order in
/// which they are asked about.
pub open spec fn is_asking_order(places: Seq<usize>, snaps: Seq<SnapView>) -> bool {
    &&& places.len() == snaps.len()
    &&& places.no_duplicates()
    &&& forall|i: int| 0 <= i < places.len() ==> #[trigger] places[i] < snaps.len()
    &&& forall|i: int, j: int|
        0 <= i < j < places.len() ==> asked_first(
            snaps,
            (#[trigger] places[i]) as int,
            (#[trigger] places[j]) as int,
        )
}

/// What a pass over the symbol cards is to do.
pub struct LlmPlan {
    /// The number of cards that were looked at.
    pub candidates: usize,
    /// The number of cards that have a summary already.
    pub unchanged: usize,
    pub jobs: Vec<Job>,
}

/// What some requests hold.
pub open spec fn job_views(jobs: Seq<Job>) -> Seq<JobView> {
    Seq::new(jobs.len(), |i: int| jobs[i]@)
}

/// Whether `plan` asks about some cards in the asking order.
pub open spec fn plans(
    plan: LlmPlan,
    snaps: Seq<SnapView>,
    model: Seq<char>,
    most: int,
    sources: Map<Seq<char>, Seq<char>>,
) -> bool {
    &&& plan.candidates == snaps.len()
    &&& exists|places: Seq<usize>|
        #![trigger arranged(snaps, places)]
        is_asking_order(places, snaps) && jobs_for(
            arranged(snaps, places),
            snaps.len() as int,
            model,
            most,
            sources,
        ) == (job_views(plan.jobs@), plan.unchanged as int)
}

/// The order in which some cards are asked about.
fn asking_order(snaps: &Vec<CardSnap>) -> (r: Vec<usize>)
    ensures
        is_asking_order(r@, snap_views(snaps@)),
{
    let mut keys: Vec<RankKey> = Vec::new();
    let mut i: usize = 0;
    while i < snaps.len()
        invariant
            i <= snaps@.len(),
            keys@.len() == i,
            forall|j: int|
                0 <= j < i ==> (#[trigger] keys@[j]).rank == snaps@[j].rank && keys@[j].name@
                    == snaps@[j].qualified@,
        decreases snaps@.len() - i,
    {
        keys.push(RankKey { rank: snaps[i].rank, name: snaps[i].qualified.clone() });
        i += 1;
    }
    let r = ranking::rank_order(&keys);
    let ghost views = snap_views(snaps@);
    assert forall|i: int, j: int| 0 <= i < j < r@.len() implies asked_first(
        views,
        (#[trigger] r@[i]) as int,
        (#[trigger] r@[j]) as int,
    ) by {
        assert(ranking::comes_first(keys@, r@[i] as int, r@[j] as int));
        assert(views[r@[i] as int] == snaps@[r@[i] as int]@);
        assert(views[r@[j] as int] == snaps@[r@[j] as int]@);
    }
    r
}

/// Once there is no room for requests, the further cards change nothing.
proof fn lemma_full(
    snaps: Seq<SnapView>,
    n: int,
    m: int,
    model: Seq<char>,
    most: int,
    sources: Map<Seq<char>, Seq<char>>,
)
    requires
        0 <= n <= m,
        !has_room(jobs_for(snaps, n, model, most, sources).0.len(), most),
    ensures
        jobs_for(snaps, m, model, most, sources) == jobs_for(snaps, n, model, most, sources),
    decreases m - n,
{
    if n < m {
        lemma_full(snaps, n, m - 1, model, most, sources);
    }
}

/// What a pass over the symbol cards is to do, from the rows that the
/// database returned: `cards` are (qualified name, signature, documentation
/// line, content hash, summary, model), `symbols` are (qualified name, file,
/// first line, last line), `files` are (identifier, path), `sources` are
/// (path, content) and may be missing. The cards of the best ranked files
/// come first.
pub fn build_llm_summaries(
    cards: &Vec<Vec<Cell>>,
    symbols: &Vec<Vec<Cell>>,
    files: &Vec<Vec<Cell>>,
    file_ranks: &Vec<PathRank>,
    sources: &Option<Vec<Vec<Cell>>>,
    opts: &LlmDistillOptions,
) -> (r: LlmPlan)
    ensures
        plans(
            r,
            snaps_of(
                cards@,
                span_table(symbols@),
                distill::path_table(files@),
                rank_table(file_ranks@),
            ),
            opts.model@,
            opts.max_symbols as int,
            distill::text_table(distill::rows_or_none(*sources), 0, 1),
        ),
{
    let ghost source_map = distill::text_table(distill::rows_or_none(*sources), 0, 1);
    let none: Vec<Vec<Cell>> = Vec::new();
    assert(none@ =~= Seq::empty());
    let snaps = read_snaps(cards, symbols, files, file_ranks);
    let ghost views = snap_views(snaps@);
    let places = asking_order(&snaps);
    let ghost sorted = arranged(views, places@);
    let lines = match sources {
        Some(rows) => distill::read_lines(rows, 0, 1),
        None => distill::read_lines(&none, 0, 1),
    };
    let most = opts.max_symbols;
    let mut jobs: Vec<Job> = Vec::new();
    let mut unchanged: usize = 0;
    let mut i: usize = 0;
    assert(job_views(jobs@) =~= Seq::empty());
    while i < places.len() && (most == 0 || jobs.len() < most)
        invariant
            i <= places@.len(),
            views == snap_views(snaps@),
            is_asking_order(places@, views),
            sorted == arranged(views, places@),
            most == opts.max_symbols,
            distill::holds_lines(lines, source_map),
            unchanged <= i,
            jobs_for(sorted, i as int, opts.model@, most as int, source_map) == (
                job_views(jobs@),
                unchanged as int,
            ),
        decreases places@.len() - i,
    {
        assert(places@[i as int] < views.len());
        let snap = &snaps[places[i]];
        assert(sorted[i as int] == snap@);
        let wanted = model_tag(opts.model.as_str(), snap.content_hash.as_str());
        let has_summary = text::chars_of(snap.llm_summary.as_str()).len() > 0;
        if has_summary && text::same(snap.llm_model.as_str(), wanted.as_str()) {
            unchanged += 1;
        } else {
            assert(lines.has(snap.path@) == source_map.dom().contains(snap.path@));
            let body = match lines.get(snap.path.as_str()) {
                Some(all) => read_excerpt(all, snap.line_start, snap.line_end),
                None => String::new(),
            };
            let ghost before = jobs@;
            let job = Job {
                qualified: snap.qualified.clone(),
                signature: snap.signature.clone(),
                doc1l: snap.doc1l.clone(),
                content_hash: snap.content_hash.clone(),
                body_excerpt: body,
            };
            assert(job@ == job_of(snap@, source_map));
            jobs.push(job);
            assert(job_views(jobs@) =~= job_views(before).push(job@));
        }
        i += 1;
    }
    proof {
        if i < places@.len() {
            lemma_full(
                sorted,
                i as int,
                places@.len() as int,
                opts.model@,
                most as int,
                source_map,
            );
        }
    }
    LlmPlan { candidates: snaps.len(), unchanged, jobs }
}

/// Whether a request is for one of the first `n` cards that has no summary of
/// its present content by the model.
pub open spec fn is_wanted(
    job: JobView,
    snaps: Seq<SnapView>,
    n: int,
    model: Seq<char>,
    sources: Map<Seq<char>, Seq<char>>,
) -> bool {
    exists|i: int|
        0 <= i < n && !is_summarised(#[trigger] snaps[i], model) && job == job_of(
            snaps[i],
            sources,
        )
}

/// A pass asks about no more symbols than it may, about none that has a
/// summary of its present content by the model, and, where it has no limit,
/// about all the others.
pub proof fn pass_asks_where_a_summary_is_missing(
    snaps: Seq<SnapView>,
    n: int,
    model: Seq<char>,
    most: int,
    sources: Map<Seq<char>, Seq<char>>,
)
    requires
        0 <= n <= snaps.len(),
        0 <= most,
    ensures
        most > 0 ==> jobs_for(snaps, n, model, most, sources).0.len() <= most,
        forall|k: int|
            0 <= k < jobs_for(snaps, n, model, most, sources).0.len() ==> is_wanted(
                #[trigger] jobs_for(snaps, n, model, most, sources).0[k],
                snaps,
                n,
                model,
                sources,
            ),
        most == 0 ==> jobs_for(snaps, n, model, most, sources).0.len() + jobs_for(
            snaps,
            n,
            model,
            most,
            sources,
        ).1 == n,
    decreases n,
{
    if n > 0 {
        pass_asks_where_a_summary_is_missing(snaps, n - 1, model, most, sources);
        let before = jobs_for(snaps, n - 1, model, most, sources).0;
        let after = jobs_for(snaps, n, model, most, sources).0;
        assert forall|k: int| 0 <= k < after.len() implies is_wanted(
            #[trigger] after[k],
            snaps,
            n,
            model,
            sources,
        ) by {
            if k < before.len() {
                assert(after[k] == before[k]);
                assert(is_wanted(before[k], snaps, n - 1, model, sources));
                let i = choose|i: int|
                    0 <= i < n - 1 && !is_summarised(#[trigger] snaps[i], model) && before[k]
                        == job_of(snaps[i], sources);
                assert(0 <= i < n && !is_summarised(snaps[i], model));
            } else {
                assert(!is_summarised(snaps[n - 1], model));
            }
        }
    }
}

/// The instruction at the head of a prompt.
pub const PROMPT_HEAD: &'static str = "Summarise the following code symbol in EXACTLY ONE sentence. Describe what it does at a high level — no parameter lists, no implementation notes, no preamble. Reply with only the sentence and nothing else.\n\n";

/// The prompt for the summary of a symbol.
pub open spec fn prompt_for(
    qualified: Seq<char>,
    signature: Seq<char>,
    doc1l: Seq<char>,
    body: Seq<char>,
) -> Seq<char> {
    PROMPT_HEAD@ + "Symbol: "@ + qualified + "\nSignature: "@ + signature + "\n"@ + (
    if doc1l.len() > 0 {
        "Existing one-line doc: "@ + doc1l + "\n"@
    } else {
        Seq::empty()
    }) + (if body.len() > 0 {
        "Body:\n"@ + text::first_chars(body, 3000)
    } else {
        Seq::empty()
    })
}

/// The prompt for the summary of a symbol. The documentation line and the
/// source stand in it where there are any; the source is cut.
pub fn build_prompt(qualified: &str, signature: &str, doc1l: &str, body: &str) -> (r: String)
    ensures
        r@ == prompt_for(qualified@, signature@, doc1l@, body@),
{
    let mut p = text::cat5(PROMPT_HEAD, "Symbol: ", qualified, "\nSignature: ", signature);
    p.append("\n");
    let ghost head = p@;
    if text::chars_of(doc1l).len() > 0 {
        p.append(text::cat3("Existing one-line doc: ", doc1l, "\n").as_str());
    } else {
        assert(head + Seq::<char>::empty() =~= head);
    }
    let ghost middle = p@;
    if text::chars_of(body).len() > 0 {
        p.append(text::cat2("Body:\n", text::take_chars(body, 3000).as_str()).as_str());
    } else {
        assert(middle + Seq::<char>::empty() =~= middle);
    }
    p
}

/// The URL of the chat endpoint.
pub open spec fn endpoint_url(endpoint: Seq<char>) -> Seq<char> {
    text::without_trailing(endpoint, '/') + "/v1/chat/completions"@
}

/// The URL of the chat endpoint.
pub fn chat_url(endpoint: &str) -> (r: String)
    ensures
        r@ == endpoint_url(endpoint@),
{
    text::cat2(text::strip_trailing(endpoint, '/').as_str(), "/v1/chat/completions")
}

/// The body of a chat request.
pub open spec fn request_body(
    model: Seq<char>,
    prompt: Seq<char>,
    max_tokens: int,
    temperature: JsonView,
) -> JsonView {
    JsonView::Obj(
        map![
            "model"@ => JsonView::Str(model),
            "messages"@ => JsonView::Arr(
                seq![
                    JsonView::Obj(
                        map!["role"@ => JsonView::Str("user"@), "content"@ => JsonView::Str(prompt)],
                    ),
                ],
            ),
            "stream"@ => JsonView::Bool(false),
            "options"@ => JsonView::Obj(
                map!["temperature"@ => temperature, "num_predict"@ => JsonView::Int(max_tokens)],
            ),
        ],
    )
}

/// The body of a chat request. The temperature comes as the JSON number to send.
pub fn chat_request(model: &str, prompt: &str, max_tokens: u32, temperature: Json) -> (r: Json)
    ensures
        r@ == request_body(model@, prompt@, max_tokens as int, temperature@),
{
    let mut messages: Vec<Json> = Vec::new();
    messages.push(
        Json::object().with("role", Json::text("user")).with("content", Json::text(prompt)),
    );
    let listed = Json::array(messages);
    assert(listed@->Arr_0 =~= seq![
        JsonView::Obj(
            map!["role"@ => JsonView::Str("user"@), "content"@ => JsonView::Str(prompt@)],
        ),
    ]);
    let options = Json::object().with("temperature", temperature).with(
        "num_predict",
        Json::UInt(max_tokens as u64),
    );
    Json::object().with("model", Json::text(model)).with("messages", listed).with(
        "stream",
        Json::Bool(false),
    ).with("options", options)
}

/// The summary in a chat reply: the content of the first choice; empty where
/// there is none.
pub open spec fn reply_text(v: JsonView) -> Seq<char> {
    match json::items_field(v, "choices"@) {
        Some(choices) => if choices.len() == 0 {
            Seq::empty()
        } else {
            match json::field(choices[0], "message"@) {
                Some(message) => match json::str_field(message, "content"@) {
                    Some(s) => s,
                    None => Seq::empty(),
                },
                None => Seq::empty(),
            }
        },
        None => Seq::empty(),
    }
}

/// A token count in a chat reply; zero where there is none.
pub open spec fn reply_tokens(v: JsonView, key: Seq<char>) -> int {
    match json::field(v, "usage"@) {
        Some(usage) => match json::field(usage, key) {
            Some(JsonView::Int(n)) => if 0 <= n <= u64::MAX {
                n
            } else {
                0
            },
            _ => 0,
        },
        None => 0,
    }
}

fn read_tokens(v: &Json, key: &str) -> (r: u64)
    ensures
        r == reply_tokens(v@, key@),
{
    match v.get("usage") {
        Some(usage) => match usage.get(key) {
            Some(Json::UInt(n)) => *n,
            Some(Json::Int(n)) => if *n >= 0 {
                *n as u64
            } else {
                0
            },
            _ => 0,
        },
        None => 0,
    }
}

/// The summary in a chat reply, and its counts of prompt and completion tokens.
pub fn read_reply(v: &Json) -> (r: (String, u64, u64))
    ensures
        r.0@ == reply_text(v@),
        r.1 == reply_tokens(v@, "prompt_tokens"@),
        r.2 == reply_tokens(v@, "completion_tokens"@),
{
    let mut summary = String::new();
    if let Some(choices) = v.items_of("choices") {
        assert(json::json_views(choices@).len() == choices@.len());
        if choices.len() > 0 {
            assert(json::json_views(choices@)[0] == choices@[0]@);
            if let Some(message) = choices[0].get("message") {
                if let Some(s) = message.str_of("content") {
                    summary = s.to_string();
                }
            }
        }
    }
    (summary, read_tokens(v, "prompt_tokens"), read_tokens(v, "completion_tokens"))
}

/// The summary to store: a reply without the space around it, if anything is left.
pub open spec fn stored_summary(reply: Seq<char>) -> Option<Seq<char>> {
    if text::trimmed(reply).len() == 0 {
        None
    } else {
        Some(text::trimmed(reply))
    }
}

/// The summary to store: a reply without the space around it, if anything is left.
pub fn summary_to_store(reply: &str) -> (r: Option<String>)
    ensures
        match r {
            Some(s) => stored_summary(reply@) == Some(s@),
            None => stored_summary(reply@) is None,
        },
{
    let s = text::trim(reply);
    if text::chars_of(s.as_str()).len() == 0 {
        None
    } else {
        Some(s)
    }
}

/// The number of outcomes that were stored.
pub open spec fn stored_count(outcomes: Seq<Option<(u64, u64)>>) -> int
    decreases outcomes.len(),
{
    if outcomes.len() == 0 {
        0
    } else {
        stored_count(outcomes.drop_last()) + if outcomes.last() is Some {
            1int
        } else {
            0
        }
    }
}

/// The sums of prompt and completion tokens over the outcomes that were
/// stored, as 64-bit sums that wrap around.
pub open spec fn token_sums(outcomes: Seq<Option<(u64, u64)>>) -> (u64, u64)
    decreases outcomes.len(),
{
    if outcomes.len() == 0 {
        (0, 0)
    } else {
        let before = token_sums(outcomes.drop_last());
        match outcomes.last() {
            Some(t) => (before.0.wrapping_add(t.0), before.1.wrapping_add(t.1)),
            None => before,
        }
    }
}

/// What a pass did, from the outcomes of its requests: the token counts of a
/// summary that was stored, or nothing for one that failed.
pub fn finish_pass(plan: &LlmPlan, outcomes: &Vec<Option<(u64, u64)>>) -> (r: LlmDistillStats)
    ensures
        r == (LlmDistillStats {
            candidates: plan.candidates,
            written: stored_count(outcomes@) as usize,
            unchanged: plan.unchanged,
            failed: (outcomes@.len() - stored_count(outcomes@)) as usize,
            total_prompt_tokens: token_sums(outcomes@).0,
            total_completion_tokens: token_sums(outcomes@).1,
        }),
{
    let mut written: usize = 0;
    let mut prompt: u64 = 0;
    let mut completion: u64 = 0;
    let mut i: usize = 0;
    assert(outcomes@.take(0) =~= Seq::empty());
    while i < outcomes.len()
        invariant
            i <= outcomes@.len(),
            written <= i,
            written == stored_count(outcomes@.take(i as int)),
            (prompt, completion) == token_sums(outcomes@.take(i as int)),
        decreases outcomes@.len() - i,
    {
        assert(outcomes@.take(i + 1).drop_last() =~= outcomes@.take(i as int));
        if let Some(t) = &outcomes[i] {
            written += 1;
            prompt = prompt.wrapping_add(t.0);
            completion = completion.wrapping_add(t.1);
        }
        i += 1;
    }
    assert(outcomes@.take(i as int) =~= outcomes@);
    LlmDistillStats {
        candidates: plan.candidates,
        written,
        unchanged: plan.unchanged,
        failed: outcomes.len() - written,
        total_prompt_tokens: prompt,
        total_completion_tokens: completion,
    }
}

/// A summary that was stored for a symbol is kept by later passes with the
/// same model, as long as the content of the symbol is the same.
pub proof fn stored_summary_is_kept(snap: SnapView, reply: Seq<char>, model: Seq<char>)
    requires
        stored_summary(reply) == Some(snap.llm_summary),
        snap.llm_model == tag(model, snap.content_hash),
    ensures
        is_summarised(snap, model),
{
}

/// A summary by another model, or from other content, is asked for again.
pub proof fn outdated_summary_is_asked_for_again(
    snap: SnapView,
    model: Seq<char>,
    old_model: Seq<char>,
    old_hash: Seq<char>,
)
    requires
        snap.llm_model == tag(old_model, old_hash),
        old_hash.len() == snap.content_hash.len(),
        old_model != model || old_hash != snap.content_hash,
    ensures
        !is_summarised(snap, model),
{
    reveal_strlit("|");
    let now = tag(model, snap.content_hash);
    let n = old_hash.len() as int;
    if snap.llm_model == now {
        assert(now.len() == model.len() + 1 + n);
        assert(snap.llm_model.take(model.len() as int) =~= old_model);
        assert(now.take(model.len() as int) =~= model);
        assert(snap.llm_model.skip((model.len() + 1) as int) =~= old_hash);
        assert(now.skip((model.len() + 1) as int) =~= snap.content_hash);
    }
}

/// Of several rows with one name the last counts: it says the file, the first
/// and the last line of the symbol, in this order.
pub proof fn last_span_of_a_name_counts(rows: Seq<Vec<Cell>>, i: int)
    requires
        0 <= i < rows.len(),
        cells::text_at(rows[i]@, 0).len() > 0,
        cells::int_at(rows[i]@, 1) is Some,
        cells::int_at(rows[i]@, 2) is Some,
        cells::int_at(rows[i]@, 3) is Some,
        forall|j: int|
            i < j < rows.len() ==> cells::text_at((#[trigger] rows[j])@, 0) != cells::text_at(
                rows[i]@,
                0,
            ),
    ensures
        span_table(rows).dom().contains(cells::text_at(rows[i]@, 0)),
        span_table(rows)[cells::text_at(rows[i]@, 0)] == (
            cells::int_at(rows[i]@, 1)->0,
            cells::int_at(rows[i]@, 2)->0,
            cells::int_at(rows[i]@, 3)->0,
        ),
    decreases rows.len(),
{
    if i < rows.len() - 1 {
        let head = rows.drop_last();
        assert(head[i] == rows[i]);
        assert forall|j: int| i < j < head.len() implies cells::text_at((#[trigger] head[j])@, 0)
            != cells::text_at(head[i]@, 0) by {
            assert(head[j] == rows[j]);
        }
        assert(rows.last() == rows[rows.len() - 1]);
        last_span_of_a_name_counts(head, i);
    }
}

/// The rank of a file is that of its last row.
pub proof fn last_rank_of_a_path_counts(rows: Seq<PathRank>, i: int, path: Seq<char>)
    requires
        0 <= i < rows.len(),
        path.len() > 0,
        rows[i].path matches Cell::Text(p) && p@ == path,
        forall|j: int|
            i < j < rows.len() ==> !((#[trigger] rows[j]).path matches Cell::Text(p) && p@ == path),
    ensures
        rank_table(rows).dom().contains(path),
        rank_table(rows)[path] == rows[i].rank,
    decreases rows.len(),
{
    if i < rows.len() - 1 {
        let head = rows.drop_last();
        assert(head[i] == rows[i]);
        assert forall|j: int|
            i < j < head.len() implies !((#[trigger] head[j]).path matches Cell::Text(p) && p@
            == path) by {
            assert(head[j] == rows[j]);
        }
        assert(rows.last() == rows[rows.len() - 1]);
        last_rank_of_a_path_counts(head, i, path);
    }
}

/// A card row is asked about with what it stores: its name, signature,
/// documentation line and content hash stand in this order, and the summary
/// and the model behind them say whether it is asked about at all. The source
/// is that of the file that the symbol stands in, which also gives the rank.
pub proof fn card_rows_become_requests(
    row: Seq<Cell>,
    spans: Map<Seq<char>, (int, int, int)>,
    paths: Map<int, Seq<char>>,
    ranks: Map<Seq<char>, u64>,
    sources: Map<Seq<char>, Seq<char>>,
    model: Seq<char>,
)
    requires
        cells::text_at(row, 0).len() > 0,
        spans.dom().contains(cells::text_at(row, 0)),
        paths.dom().contains(spans[cells::text_at(row, 0)].0),
    ensures
        ({
            let (file, first, last) = spans[cells::text_at(row, 0)];
            &&& snap_of(row, spans, paths, ranks) matches Some(snap) && {
                &&& job_of(snap, sources).qualified == cells::text_at(row, 0)
                &&& job_of(snap, sources).signature == cells::text_at(row, 1)
                &&& job_of(snap, sources).doc1l == cells::text_at(row, 2)
                &&& job_of(snap, sources).content_hash == cells::text_at(row, 3)
                &&& sources.dom().contains(paths[file]) ==> job_of(snap, sources).body_excerpt
                    == excerpt(text::lines_of(sources[paths[file]]), first, last)
                &&& !sources.dom().contains(paths[file]) ==> job_of(
                    snap,
                    sources,
                ).body_excerpt.len() == 0
                &&& is_summarised(snap, model) <==> cells::text_at(row, 4).len() > 0
                    && cells::text_at(row, 5) == model + seq!['|'] + cells::text_at(row, 3)
                &&& snap.path == paths[file]
                &&& ranks.dom().contains(paths[file]) ==> snap.rank == ranks[paths[file]]
            }
        }),
{
    reveal_strlit("|");
    assert("|"@ =~= seq!['|']);
}

/// Cards of better ranked files are asked about first, and cards of one rank
/// by their names.
pub proof fn better_ranked_cards_are_asked_first(
    places: Seq<usize>,
    snaps: Seq<SnapView>,
    i: int,
    j: int,
)
    requires
        is_asking_order(places, snaps),
        0 <= i < j < places.len(),
    ensures
        arranged(snaps, places)[i].rank >= arranged(snaps, places)[j].rank,
        arranged(snaps, places)[i].rank == arranged(snaps, places)[j].rank
            ==> !text::comes_before(
            arranged(snaps, places)[j].qualified,
            arranged(snaps, places)[i].qualified,
        ),
{
    let a = places[i] as int;
    let b = places[j] as int;
    assert(asked_first(snaps, a, b));
    text::text_order_is_total(snaps[a].qualified, snaps[b].qualified);
    text::text_order_is_total(snaps[a].qualified, snaps[a].qualified);
    if text::comes_before(snaps[a].qualified, snaps[b].qualified) && text::comes_before(
        snaps[b].qualified,
        snaps[a].qualified,
    ) {
        text::text_order_is_transitive(
            snaps[a].qualified,
            snaps[b].qualified,
            snaps[a].qualified,
        );
    }
}

/// A card that has no summary of its present content by the model is asked
/// about, where there is no limit.
pub proof fn every_card_without_a_summary_is_asked_about(
    snaps: Seq<SnapView>,
    n: int,
    model: Seq<char>,
    sources: Map<Seq<char>, Seq<char>>,
    i: int,
)
    requires
        0 <= i < n <= snaps.len(),
        !is_summarised(snaps[i], model),
    ensures
        jobs_for(snaps, n, model, 0, sources).0.contains(job_of(snaps[i], sources)),
    decreases n,
{
    let before = jobs_for(snaps, n - 1, model, 0, sources).0;
    let after = jobs_for(snaps, n, model, 0, sources).0;
    if i < n - 1 {
        every_card_without_a_summary_is_asked_about(snaps, n - 1, model, sources, i);
        let k = before.index_of(job_of(snaps[i], sources));
        assert(after[k] == before[k]);
    } else {
        assert(after[after.len() - 1] == job_of(snaps[i], sources));
    }
}

} // verus!
