//! `helios_outline_first` and `helios_doc_drill`: the headings of the
//! documentation, and the chunks under one of them.

use vstd::prelude::*;
use vstd::string::*;

use crate::args;
use crate::cells;
use crate::cells::Cell;
use crate::decimal;
use crate::json;
use crate::json::Json;
use crate::json::JsonView;
use crate::text;
use crate::utf8;

verus! {

/// A section that the graph search found. What is shown as it came is JSON.
pub struct SectionHit {
    pub node_id: Json,
    pub title: Json,
    pub text: Option<String>,
    pub source_ref: Json,
}

/// The number of sections that a call asks for.
pub open spec fn section_limit(args: JsonView) -> int {
    args::clamped(args::int_or(args, "max_sections"@, 20), 1, 100)
}

/// The seed text and the number of sections to search for.
pub fn outline_first_plan(args: &Json) -> (r: Result<(String, usize), String>)
    ensures
        match r {
            Ok((seed, limit)) => json::str_field(args@, "query"@) == Some(seed@) && limit
                == section_limit(args@),
            Err(e) => json::str_field(args@, "query"@) is None && e@ == args::missing_string(
                "query"@,
            ),
        },
{
    match args::arg_str(args, "query") {
        Ok(query) => Ok(
            (query.to_string(), args::arg_within(args, "max_sections", 20, 1, 100) as usize),
        ),
        Err(e) => Err(e),
    }
}

/// The first line of a section's text, at most two hundred characters of it.
pub open spec fn section_summary(text: Option<Seq<char>>) -> Seq<char> {
    match text {
        Some(t) => text::first_chars(text::before_first(t, '\n'), 200),
        None => Seq::empty(),
    }
}

/// The text of a hit.
pub open spec fn hit_text(hit: SectionHit) -> Option<Seq<char>> {
    match hit.text {
        Some(s) => Some(s@),
        None => None,
    }
}

/// A section as it is listed.
pub open spec fn section_entry(hit: SectionHit) -> JsonView {
    JsonView::Obj(
        map![
            "section_id"@ => hit.node_id@,
            "title"@ => hit.title@,
            "summary"@ => JsonView::Str(section_summary(hit_text(hit))),
            "source"@ => hit.source_ref@,
        ],
    )
}

/// A section as an answer card shows it.
pub open spec fn section_evidence(hit: SectionHit) -> JsonView {
    JsonView::Obj(
        map!["section_id"@ => hit.node_id@, "title"@ => hit.title@, "source"@ => hit.source_ref@],
    )
}

/// The answer with the sections that were found.
pub open spec fn outline(args: JsonView, query: Seq<char>, hits: Seq<SectionHit>) -> JsonView {
    let shown = args::first_of(hits, 8);
    args::with_card(
        JsonView::Obj(
            map![
                "query"@ => JsonView::Str(query),
                "count"@ => JsonView::Int(hits.len() as int),
                "sections"@ => JsonView::Arr(
                    Seq::new(hits.len(), |i: int| section_entry(hits[i])),
                ),
            ],
        ),
        args::card(
            "outline_first"@,
            "Returned "@ + decimal::digits(shown.len())
                + " matching documentation sections without full chunk bodies."@,
            args::budget_of(args, 1200),
            Seq::new(shown.len(), |i: int| section_evidence(shown[i])),
            Seq::empty(),
        ),
    )
}

/// A section as it is listed.
fn list_section(hit: &SectionHit) -> (r: Json)
    ensures
        r@ == section_entry(*hit),
{
    let summary = match &hit.text {
        Some(t) => text::take_chars(text::head_before(t.as_str(), '\n').as_str(), 200),
        None => String::new(),
    };
    Json::object().with("section_id", hit.node_id.copy()).with("title", hit.title.copy()).with(
        "summary",
        Json::Text(summary),
    ).with("source", hit.source_ref.copy())
}

/// The answer of `helios_outline_first`: an error where the query is missing
/// or the search failed, else the sections.
pub fn outline_first_handler(args: &Json, found: &Result<Vec<SectionHit>, String>) -> (r: Result<
    Json,
    String,
>)
    ensures
        match (json::str_field(args@, "query"@), *found) {
            (None, _) => r is Err && r->Err_0@ == args::missing_string("query"@),
            (Some(_), Err(e)) => r is Err && r->Err_0@ == "graph_rag_search failed: "@ + e@,
            (Some(q), Ok(hits)) => r is Ok && r->Ok_0@ == outline(args@, q, hits@),
        },
{
    let query = match args::arg_str(args, "query") {
        Ok(q) => q,
        Err(e) => return Err(e),
    };
    match found {
        Err(e) => Err(text::cat2("graph_rag_search failed: ", e.as_str())),
        Ok(hits) => {
            let mut sections: Vec<Json> = Vec::new();
            let mut evidence: Vec<Json> = Vec::new();
            let mut i: usize = 0;
            while i < hits.len()
                invariant
                    i <= hits@.len(),
                    sections@.len() == i,
                    evidence@.len() == if i < 8 {
                        i as int
                    } else {
                        8
                    },
                    forall|j: int|
                        0 <= j < i ==> (#[trigger] sections@[j])@ == section_entry(hits@[j]),
                    forall|j: int|
                        0 <= j < evidence@.len() ==> (#[trigger] evidence@[j])@
                            == section_evidence(hits@[j]),
                decreases hits@.len() - i,
            {
                let hit = &hits[i];
                sections.push(list_section(hit));
                if i < 8 {
                    evidence.push(
                        Json::object().with("section_id", hit.node_id.copy()).with(
                            "title",
                            hit.title.copy(),
                        ).with("source", hit.source_ref.copy()),
                    );
                }
                i += 1;
            }
            let ghost shown = args::first_of(hits@, 8);
            assert(json::json_views(sections@) =~= Seq::new(
                hits@.len(),
                |i: int| section_entry(hits@[i]),
            ));
            assert(json::json_views(evidence@) =~= Seq::new(
                shown.len(),
                |i: int| section_evidence(shown[i]),
            ));
            let summary = text::cat3(
                "Returned ",
                decimal::unsigned_text(evidence.len() as u64).as_str(),
                " matching documentation sections without full chunk bodies.",
            );
            let payload = Json::object().with("query", Json::text(query)).with(
                "count",
                Json::number(sections.len()),
            ).with("sections", Json::array(sections));
            let omitted: Vec<Json> = Vec::new();
            assert(json::json_views(omitted@) =~= Seq::empty());
            Ok(
                args::attach_answer_card(
                    payload,
                    "outline_first",
                    summary.as_str(),
                    evidence,
                    args,
                    1200,
                    omitted,
                ),
            )
        },
    }
}

/// The query for the title of a section.
pub open spec fn title_query(section_id: int) -> Seq<char> {
    "SELECT title FROM _hdb_graph_nodes WHERE node_id = "@ + decimal::integer(section_id)
        + " AND node_kind = 'DocSection'"@
}

/// The number of chunks that a call asks for.
pub open spec fn chunk_limit(args: JsonView) -> int {
    args::clamped(args::int_or(args, "max_chunks"@, 10), 1, 50)
}

/// The query for the chunks of a section.
pub open spec fn chunk_query(section_id: int, limit: int) -> Seq<char> {
    "SELECT n.node_id, n.text, n.source_ref FROM _hdb_graph_edges e JOIN _hdb_graph_nodes n ON n.node_id = e.from_node WHERE e.to_node = "@
        + decimal::integer(section_id)
        + " AND e.edge_kind = 'PART_OF' AND n.node_kind = 'DocChunk' ORDER BY n.node_id LIMIT "@
        + decimal::integer(limit)
}

/// The section that a call asks for, and the queries for its title and its chunks.
pub fn doc_drill_plan(args: &Json) -> (r: Result<(i64, String, String), String>)
    ensures
        match r {
            Ok((id, title_sql, chunk_sql)) => json::int_field(args@, "section_id"@) == Some(
                id as int,
            ) && title_sql@ == title_query(id as int) && chunk_sql@ == chunk_query(
                id as int,
                chunk_limit(args@),
            ),
            Err(e) => json::int_field(args@, "section_id"@) is None && e@ == args::missing_integer(
                "section_id"@,
            ),
        },
{
    let id = match args::arg_int_required(args, "section_id") {
        Ok(id) => id,
        Err(e) => return Err(e),
    };
    let shown = decimal::signed_text(id);
    let limit = args::arg_within(args, "max_chunks", 10, 1, 50);
    let title_sql = text::cat3(
        "SELECT title FROM _hdb_graph_nodes WHERE node_id = ",
        shown.as_str(),
        " AND node_kind = 'DocSection'",
    );
    let mut chunk_sql = text::cat3(
        "SELECT n.node_id, n.text, n.source_ref FROM _hdb_graph_edges e JOIN _hdb_graph_nodes n ON n.node_id = e.from_node WHERE e.to_node = ",
        shown.as_str(),
        " AND e.edge_kind = 'PART_OF' AND n.node_kind = 'DocChunk' ORDER BY n.node_id LIMIT ",
    );
    chunk_sql.append(decimal::signed_text(limit).as_str());
    Ok((id, title_sql, chunk_sql))
}

/// The title in the rows that the title query returned; empty where there is none.
pub open spec fn found_title(rows: Seq<Vec<Cell>>) -> Seq<char> {
    if rows.len() == 0 {
        Seq::empty()
    } else {
        cells::text_at(rows[0]@, 0)
    }
}

/// The title of the section `section_id`, from what the title query returned.
pub fn section_title(section_id: i64, found: &Result<Vec<Vec<Cell>>, String>) -> (r: Result<
    String,
    String,
>)
    ensures
        match *found {
            Err(e) => r is Err && r->Err_0@ == "section lookup failed: "@ + e@,
            Ok(rows) => match r {
                Ok(title) => title@ == found_title(rows@) && title@.len() > 0,
                Err(e) => found_title(rows@).len() == 0 && e@ == "no DocSection node with id "@
                    + decimal::integer(section_id as int),
            },
        },
{
    match found {
        Err(e) => Err(text::cat2("section lookup failed: ", e.as_str())),
        Ok(rows) => {
            let title = if rows.len() == 0 {
                String::new()
            } else {
                cells::tuple_str(&rows[0], 0)
            };
            if text::chars_of(title.as_str()).len() == 0 {
                Err(
                    text::cat2(
                        "no DocSection node with id ",
                        decimal::signed_text(section_id).as_str(),
                    ),
                )
            } else {
                Ok(title)
            }
        },
    }
}

/// What is left of a byte budget after the texts of some rows.
pub open spec fn budget_left(rows: Seq<Vec<Cell>>, budget: int) -> int
    decreases rows.len(),
{
    if rows.len() == 0 {
        budget
    } else {
        let left = budget_left(rows.drop_last(), budget);
        left - utf8::byte_len(utf8::head_within(cells::text_at(rows.last()@, 1), left))
    }
}

/// The text of the chunk in row `i` as far as the budget goes: the longest
/// head that fits in what the chunks before it left.
pub open spec fn chunk_text(rows: Seq<Vec<Cell>>, budget: int, i: int) -> Seq<char> {
    utf8::head_within(cells::text_at(rows[i]@, 1), budget_left(rows.take(i), budget))
}

/// The number of bytes that the budget cuts off the chunk in row `i`.
pub open spec fn chunk_dropped(rows: Seq<Vec<Cell>>, budget: int, i: int) -> int {
    utf8::byte_len(cells::text_at(rows[i]@, 1)) - utf8::byte_len(chunk_text(rows, budget, i))
}

/// The identifier of the chunk in a row; zero where there is none.
pub open spec fn chunk_id(row: Seq<Cell>) -> int {
    match cells::int_at(row, 0) {
        Some(n) => n,
        None => 0,
    }
}

/// The chunk in row `i` as it is listed.
pub open spec fn chunk_entry(rows: Seq<Vec<Cell>>, budget: int, i: int) -> JsonView {
    JsonView::Obj(
        map![
            "chunk_id"@ => JsonView::Int(chunk_id(rows[i]@)),
            "text"@ => JsonView::Str(chunk_text(rows, budget, i)),
            "source"@ => JsonView::Str(cells::text_at(rows[i]@, 2)),
        ],
    )
}

/// The note on a chunk that the budget cut.
pub open spec fn omitted_entry(id: int, dropped: int, section_id: int) -> JsonView {
    JsonView::Obj(
        map![
            "reason"@ => JsonView::Str("budget"@),
            "chunk_id"@ => JsonView::Int(id),
            "bytes"@ => JsonView::Int(dropped),
            "open_with"@ => JsonView::Obj(
                map![
                    "action"@ => JsonView::Str("doc_drill"@),
                    "args"@ => JsonView::Obj(
                        map![
                            "section_id"@ => JsonView::Int(section_id),
                            "budget_tokens"@ => JsonView::Int(12000),
                        ],
                    ),
                ],
            ),
        ],
    )
}

/// The notes on those of the first `n` chunks that the budget cut.
pub open spec fn omitted_entries(
    rows: Seq<Vec<Cell>>,
    budget: int,
    section_id: int,
    n: int,
) -> Seq<JsonView>
    decreases n,
{
    if n <= 0 {
        Seq::empty()
    } else {
        let before = omitted_entries(rows, budget, section_id, n - 1);
        if chunk_dropped(rows, budget, n - 1) > 0 {
            before.push(
                omitted_entry(
                    chunk_id(rows[n - 1]@),
                    chunk_dropped(rows, budget, n - 1),
                    section_id,
                ),
            )
        } else {
            before
        }
    }
}

/// A chunk as an answer card shows it.
pub open spec fn chunk_evidence(row: Seq<Cell>) -> JsonView {
    JsonView::Obj(
        map![
            "chunk_id"@ => JsonView::Int(chunk_id(row)),
            "source"@ => JsonView::Str(cells::text_at(row, 2)),
        ],
    )
}

/// The answer with the chunks of a section.
pub open spec fn drilled(
    args: JsonView,
    section_id: int,
    title: Seq<char>,
    rows: Seq<Vec<Cell>>,
) -> JsonView {
    let budget = args::budget_of(args, 1500) * 4;
    let shown = args::first_of(rows, 8);
    args::with_card(
        JsonView::Obj(
            map![
                "section_id"@ => JsonView::Int(section_id),
                "title"@ => JsonView::Str(title),
                "count"@ => JsonView::Int(rows.len() as int),
                "chunks"@ => JsonView::Arr(
                    Seq::new(rows.len(), |i: int| chunk_entry(rows, budget, i)),
                ),
            ],
        ),
        args::card(
            "doc_drill"@,
            "Expanded DocSection "@ + decimal::integer(section_id) + " into "@ + decimal::digits(
                rows.len(),
            ) + " child chunks."@,
            args::budget_of(args, 1500),
            Seq::new(shown.len(), |i: int| chunk_evidence(shown[i]@)),
            omitted_entries(rows, budget, section_id, rows.len() as int),
        ),
    )
}

/// The note on a chunk that the budget cut.
fn note_omitted(id: i64, dropped: usize, section_id: i64) -> (r: Json)
    ensures
        r@ == omitted_entry(id as int, dropped as int, section_id as int),
{
    let call_args = Json::object().with("section_id", Json::Int(section_id)).with(
        "budget_tokens",
        Json::number(12000),
    );
    let open_with = Json::object().with("action", Json::text("doc_drill")).with("args", call_args);
    Json::object().with("reason", Json::text("budget")).with("chunk_id", Json::Int(id)).with(
        "bytes",
        Json::number(dropped),
    ).with("open_with", open_with)
}

/// The chunk texts of a section together stay within the budget.
pub proof fn chunks_stay_within_the_budget(rows: Seq<Vec<Cell>>, budget: int)
    requires
        0 <= budget,
    ensures
        0 <= budget_left(rows, budget) <= budget,
    decreases rows.len(),
{
    if rows.len() > 0 {
        chunks_stay_within_the_budget(rows.drop_last(), budget);
        utf8::head_within_is_the_longest_head(
            cells::text_at(rows.last()@, 1),
            budget_left(rows.drop_last(), budget),
        );
    }
}

/// A chunk that fits in what the chunks before it left is whole, and what
/// the budget cuts off any chunk is exactly what its text lacks.
pub proof fn fitting_chunk_is_whole(rows: Seq<Vec<Cell>>, budget: int, i: int)
    requires
        0 <= budget,
        0 <= i < rows.len(),
    ensures
        utf8::byte_len(cells::text_at(rows[i]@, 1)) <= budget_left(rows.take(i), budget)
            ==> chunk_text(rows, budget, i) == cells::text_at(rows[i]@, 1),
        chunk_dropped(rows, budget, i) >= 0,
        chunk_dropped(rows, budget, i) == 0 ==> chunk_text(rows, budget, i) == cells::text_at(
            rows[i]@,
            1,
        ),
{
    let whole = cells::text_at(rows[i]@, 1);
    let left = budget_left(rows.take(i), budget);
    chunks_stay_within_the_budget(rows.take(i), budget);
    utf8::head_within_is_the_longest_head(whole, left);
    utf8::head_within_of_fitting_text(whole, left);
    let n = utf8::head_within(whole, left).len() as int;
    utf8::encoding_of_concatenation(whole.take(n), whole.skip(n));
    assert(whole.take(n) + whole.skip(n) =~= whole);
    if n < whole.len() {
        utf8::lemma_byte_len_first(whole.skip(n));
    }
}

/// The answer of `helios_doc_drill` for the section `section_id` with the
/// title `title`, from what the chunk query returned.
pub fn doc_drill_handler(
    args: &Json,
    section_id: i64,
    title: &str,
    found: &Result<Vec<Vec<Cell>>, String>,
) -> (r: Result<Json, String>)
    ensures
        match *found {
            Err(e) => r is Err && r->Err_0@ == "chunk lookup failed: "@ + e@,
            Ok(rows) => r is Ok && r->Ok_0@ == drilled(args@, section_id as int, title@, rows@),
        },
{
    let rows = match found {
        Err(e) => return Err(text::cat2("chunk lookup failed: ", e.as_str())),
        Ok(rows) => rows,
    };
    let budget = args::budget_bytes(args, 1500);
    let mut remaining: usize = budget;
    let mut chunks: Vec<Json> = Vec::new();
    let mut omitted: Vec<Json> = Vec::new();
    let mut evidence: Vec<Json> = Vec::new();
    let mut i: usize = 0;
    assert(rows@.take(0) =~= Seq::empty());
    assert(json::json_views(omitted@) =~= Seq::empty());
    while i < rows.len()
        invariant
            i <= rows@.len(),
            remaining == budget_left(rows@.take(i as int), budget as int),
            chunks@.len() == i,
            forall|j: int|
                0 <= j < i ==> (#[trigger] chunks@[j])@ == chunk_entry(rows@, budget as int, j),
            json::json_views(omitted@) == omitted_entries(
                rows@,
                budget as int,
                section_id as int,
                i as int,
            ),
            evidence@.len() == if i < 8 {
                i as int
            } else {
                8
            },
            forall|j: int|
                0 <= j < evidence@.len() ==> (#[trigger] evidence@[j])@ == chunk_evidence(
                    rows@[j]@,
                ),
        decreases rows@.len() - i,
    {
        let row = &rows[i];
        let id = match cells::tuple_int(row, 0) {
            Some(n) => n,
            None => 0,
        };
        let whole = cells::tuple_str(row, 1);
        let source = cells::tuple_str(row, 2);
        let (head, dropped) = args::shorten_chars(whole.as_str(), remaining);
        assert(head@ == chunk_text(rows@, budget as int, i as int));
        assert(dropped == chunk_dropped(rows@, budget as int, i as int));
        proof {
            utf8::head_within_is_the_longest_head(whole@, remaining as int);
            assert(rows@.take(i + 1).drop_last() =~= rows@.take(i as int));
        }
        remaining -= utf8::len_of(head.as_str());
        if dropped > 0 {
            let ghost before = omitted@;
            omitted.push(note_omitted(id, dropped, section_id));
            assert(json::json_views(omitted@) =~= json::json_views(before).push(
                omitted_entry(id as int, dropped as int, section_id as int),
            ));
        }
        if i < 8 {
            evidence.push(
                Json::object().with("chunk_id", Json::Int(id)).with(
                    "source",
                    Json::text(source.as_str()),
                ),
            );
        }
        chunks.push(
            Json::object().with("chunk_id", Json::Int(id)).with("text", Json::Text(head)).with(
                "source",
                Json::Text(source),
            ),
        );
        i += 1;
    }
    let ghost shown = args::first_of(rows@, 8);
    assert(json::json_views(chunks@) =~= Seq::new(
        rows@.len(),
        |i: int| chunk_entry(rows@, budget as int, i),
    ));
    assert(json::json_views(evidence@) =~= Seq::new(
        shown.len(),
        |i: int| chunk_evidence(shown[i]@),
    ));
    let summary = text::cat5(
        "Expanded DocSection ",
        decimal::signed_text(section_id).as_str(),
        " into ",
        decimal::unsigned_text(rows.len() as u64).as_str(),
        " child chunks.",
    );
    let payload = Json::object().with("section_id", Json::Int(section_id)).with(
        "title",
        Json::text(title),
    ).with("count", Json::number(chunks.len())).with("chunks", Json::array(chunks));
    Ok(
        args::attach_answer_card(
            payload,
            "doc_drill",
            summary.as_str(),
            evidence,
            args,
            1500,
            omitted,
        ),
    )
}

/// The sections of an answer are those that were found, in their order, each
/// with its own identifier, title and source, and with the first line of its
/// text, where that is not longer than two hundred characters, as its summary.
pub proof fn sections_are_listed_as_found(
    args: JsonView,
    query: Seq<char>,
    hits: Seq<SectionHit>,
    i: int,
    line: Seq<char>,
    rest: Seq<char>,
)
    requires
        0 <= i < hits.len(),
        hits[i].text matches Some(t) && (t@ == line || t@ == line.push('\n') + rest),
        !line.contains('\n'),
        line.len() <= 200,
    ensures
        ({
            let answer = outline(args, query, hits);
            &&& json::str_field(answer, "query"@) == Some(query)
            &&& json::field(answer, "count"@) == Some(JsonView::Int(hits.len() as int))
            &&& json::items_field(answer, "sections"@) matches Some(list) && {
                &&& list.len() == hits.len()
                &&& json::field(list[i], "section_id"@) == Some(hits[i].node_id@)
                &&& json::field(list[i], "title"@) == Some(hits[i].title@)
                &&& json::field(list[i], "source"@) == Some(hits[i].source_ref@)
                &&& json::str_field(list[i], "summary"@) == Some(line)
            }
        }),
{
    reveal_strlit("query");
    reveal_strlit("count");
    reveal_strlit("sections");
    reveal_strlit("schema");
    reveal_strlit("answer_card");
    reveal_strlit("section_id");
    reveal_strlit("title");
    reveal_strlit("summary");
    reveal_strlit("source");
    assert("query"@.len() == 5 && "count"@.len() == 5 && "sections"@.len() == 8);
    assert("query"@[0] != "count"@[0]);
    assert("schema"@.len() == 6 && "answer_card"@.len() == 11);
    assert("section_id"@.len() == 10 && "title"@.len() == 5 && "summary"@.len() == 7
        && "source"@.len() == 6);
    let t = hits[i].text->0@;
    assert forall|j: int| 0 <= j < line.len() implies t[j] != '\n' by {
        assert(t[j] == line[j]);
        assert(line.contains(line[j]));
    }
    text::lemma_index_of_is(t, '\n', line.len() as int);
    assert(t.take(line.len() as int) =~= line);
}

/// The chunks of an answer are those of the rows, in their order, each with
/// the identifier in the first column, the source in the third, and the text
/// in the second, whole where it fits in what the chunks before it left.
pub proof fn chunks_are_listed_as_found(
    args: JsonView,
    section_id: int,
    title: Seq<char>,
    rows: Seq<Vec<Cell>>,
    i: int,
)
    requires
        0 <= i < rows.len(),
        cells::int_at(rows[i]@, 0) is Some,
    ensures
        ({
            let answer = drilled(args, section_id, title, rows);
            let budget = args::budget_of(args, 1500) * 4;
            &&& json::field(answer, "section_id"@) == Some(JsonView::Int(section_id))
            &&& json::str_field(answer, "title"@) == Some(title)
            &&& json::items_field(answer, "chunks"@) matches Some(list) && {
                &&& list.len() == rows.len()
                &&& json::field(list[i], "chunk_id"@) == Some(
                    JsonView::Int(cells::int_at(rows[i]@, 0)->0),
                )
                &&& json::str_field(list[i], "source"@) == Some(cells::text_at(rows[i]@, 2))
                &&& utf8::byte_len(cells::text_at(rows[i]@, 1)) <= budget_left(
                    rows.take(i),
                    budget,
                ) ==> json::str_field(list[i], "text"@) == Some(cells::text_at(rows[i]@, 1))
            }
        }),
{
    reveal_strlit("section_id");
    reveal_strlit("title");
    reveal_strlit("count");
    reveal_strlit("chunks");
    reveal_strlit("schema");
    reveal_strlit("answer_card");
    reveal_strlit("chunk_id");
    reveal_strlit("text");
    reveal_strlit("source");
    assert("section_id"@.len() == 10 && "title"@.len() == 5 && "count"@.len() == 5
        && "chunks"@.len() == 6);
    assert("title"@[0] != "count"@[0]);
    assert("schema"@.len() == 6 && "answer_card"@.len() == 11);
    assert("chunks"@[0] != "schema"@[0]);
    assert("chunk_id"@.len() == 8 && "text"@.len() == 4 && "source"@.len() == 6);
    let budget = args::budget_of(args, 1500) * 4;
    let left = budget_left(rows.take(i), budget);
    let whole = cells::text_at(rows[i]@, 1);
    if utf8::byte_len(whole) <= left {
        utf8::head_within_of_fitting_text(whole, left);
    }
}

/// A call that does not say how many sections or chunks it wants gets twenty
/// sections or ten chunks, and one that does gets them, from one up to a
/// hundred sections or fifty chunks.
pub proof fn section_and_chunk_limits_are_kept(args: JsonView)
    ensures
        json::int_field(args, "max_sections"@) is None ==> section_limit(args) == 20,
        json::int_field(args, "max_sections"@) matches Some(n) ==> {
            &&& 1 <= n <= 100 ==> section_limit(args) == n
            &&& n > 100 ==> section_limit(args) == 100
            &&& n < 1 ==> section_limit(args) == 1
        },
        json::int_field(args, "max_chunks"@) is None ==> chunk_limit(args) == 10,
        json::int_field(args, "max_chunks"@) matches Some(n) ==> {
            &&& 1 <= n <= 50 ==> chunk_limit(args) == n
            &&& n > 50 ==> chunk_limit(args) == 50
            &&& n < 1 ==> chunk_limit(args) == 1
        },
{
}

/// A chunk that the budget cuts is noted, with its identifier and the bytes
/// that were cut, and nothing else is.
pub proof fn cut_chunks_are_noted(
    rows: Seq<Vec<Cell>>,
    budget: int,
    section_id: int,
    n: int,
    note: JsonView,
)
    requires
        0 <= n <= rows.len(),
    ensures
        omitted_entries(rows, budget, section_id, n).contains(note) <==> exists|i: int|
            0 <= i < n && #[trigger] chunk_dropped(rows, budget, i) > 0 && note == omitted_entry(
                chunk_id(rows[i]@),
                chunk_dropped(rows, budget, i),
                section_id,
            ),
    decreases n,
{
    let all = omitted_entries(rows, budget, section_id, n);
    if n > 0 {
        let before = omitted_entries(rows, budget, section_id, n - 1);
        cut_chunks_are_noted(rows, budget, section_id, n - 1, note);
        if all.contains(note) {
            let k = all.index_of(note);
            if k < before.len() {
                assert(before[k] == note);
            } else {
                assert(chunk_dropped(rows, budget, n - 1) > 0);
            }
        }
        if exists|i: int|
            0 <= i < n && #[trigger] chunk_dropped(rows, budget, i) > 0 && note == omitted_entry(
                chunk_id(rows[i]@),
                chunk_dropped(rows, budget, i),
                section_id,
            ) {
            let i = choose|i: int|
                0 <= i < n && #[trigger] chunk_dropped(rows, budget, i) > 0 && note
                    == omitted_entry(
                    chunk_id(rows[i]@),
                    chunk_dropped(rows, budget, i),
                    section_id,
                );
            if i < n - 1 {
                let k = before.index_of(note);
                assert(all[k] == note);
            } else {
                assert(all[all.len() - 1] == note);
            }
        }
    }
}

} // verus!
