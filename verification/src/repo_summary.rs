//! `helios_repo_summary`: the ranked file cards.

use vstd::prelude::*;
use vstd::string::*;

use crate::args;
use crate::cells::Cell;
use crate::decimal;
use crate::json;
use crate::json::Json;
use crate::json::JsonView;
use crate::text;

verus! {

/// A row of the file cards: the rank comes as the JSON number it is shown as.
pub struct FileRow {
    pub path: Cell,
    pub pagerank: Json,
    pub top_symbols: Cell,
}

/// What the database returned for the file cards.
pub enum FileCards {
    /// The table does not exist.
    NotBuilt,
    /// The query failed with this message.
    Failed(String),
    /// The rows, in order.
    Rows(Vec<FileRow>),
}

/// The text of a cell; empty where it holds none.
pub open spec fn cell_text(c: Cell) -> Seq<char> {
    match c {
        Cell::Text(s) => s@,
        _ => Seq::empty(),
    }
}

fn text_of_cell(c: &Cell) -> (r: String)
    ensures
        r@ == cell_text(*c),
{
    match c {
        Cell::Text(s) => s.clone(),
        _ => String::new(),
    }
}

/// The number of files that a call asks for.
pub open spec fn file_limit(args: JsonView) -> int {
    args::clamped(args::int_or(args, "limit"@, 50), 1, 500)
}

/// The query for the file cards.
pub open spec fn file_cards_query(args: JsonView) -> Seq<char> {
    "SELECT path, pagerank, top_symbols FROM _hdb_plugin_repomap_cards ORDER BY pagerank DESC LIMIT "@
        + decimal::integer(file_limit(args))
}

/// The query for the file cards.
pub fn repo_summary_sql(args: &Json) -> (r: String)
    ensures
        r@ == file_cards_query(args@),
{
    let limit = args::arg_within(args, "limit", 50, 1, 500);
    text::cat2(
        "SELECT path, pagerank, top_symbols FROM _hdb_plugin_repomap_cards ORDER BY pagerank DESC LIMIT ",
        decimal::signed_text(limit).as_str(),
    )
}

/// A top symbol by its name alone; what is no object is kept.
pub open spec fn named_only(symbol: JsonView) -> JsonView {
    match symbol {
        JsonView::Obj(_) => JsonView::Obj(map!["name"@ => args::field_or_null(symbol, "name"@)]),
        _ => symbol,
    }
}

/// The top symbols of a file: the stored JSON, or an empty array where the
/// stored text is not JSON.
pub open spec fn stored_symbols(top: Option<JsonView>) -> JsonView {
    match top {
        Some(v) => v,
        None => JsonView::Arr(Seq::empty()),
    }
}

/// The top symbols of a file by their names; empty where they are no array.
pub open spec fn symbol_names(top: Option<JsonView>) -> JsonView {
    match stored_symbols(top) {
        JsonView::Arr(a) => JsonView::Arr(Seq::new(a.len(), |i: int| named_only(a[i]))),
        _ => JsonView::Arr(Seq::empty()),
    }
}

/// The card of a file, before projection.
pub open spec fn file_card(
    path: Seq<char>,
    pagerank: JsonView,
    top: Option<JsonView>,
    detail: Seq<char>,
) -> JsonView {
    if detail == "minimal"@ {
        JsonView::Obj(map!["path"@ => JsonView::Str(path), "pagerank"@ => pagerank])
    } else {
        JsonView::Obj(
            map![
                "path"@ => JsonView::Str(path),
                "pagerank"@ => pagerank,
                "top_symbols"@ => if detail == "file_index"@ {
                    symbol_names(top)
                } else {
                    stored_symbols(top)
                },
            ],
        )
    }
}

/// The cards of the files that were found.
pub open spec fn file_list(rows: Seq<FileRow>, args: JsonView) -> Seq<JsonView> {
    Seq::new(
        rows.len(),
        |i: int|
            args::projected(
                file_card(
                    cell_text(rows[i].path),
                    rows[i].pagerank@,
                    json::parsed_text(cell_text(rows[i].top_symbols)),
                    args::str_or(args, "detail"@, "file_index"@),
                ),
                args::field_names(args),
            ),
    )
}

/// What an answer card says of some files: path and rank of those that have a path.
pub open spec fn file_evidence(files: Seq<JsonView>) -> Seq<JsonView>
    decreases files.len(),
{
    if files.len() == 0 {
        Seq::empty()
    } else {
        let before = file_evidence(files.drop_last());
        match json::field(files.last(), "path"@) {
            Some(p) => before.push(
                JsonView::Obj(
                    map!["path"@ => p, "pagerank"@ => args::field_or_null(files.last(), "pagerank"@)],
                ),
            ),
            None => before,
        }
    }
}

/// The answer where the file cards are not built.
pub open spec fn no_file_cards(args: JsonView) -> JsonView {
    args::with_card(
        JsonView::Obj(
            map![
                "status"@ => JsonView::Str("cards_not_built"@),
                "message"@ => JsonView::Str(
                    "_hdb_plugin_repomap_cards not present. Re-run `heliosdb-codekb-mcp ingest --source <root>` after Layer 3 (distill) lands to populate the table."@,
                ),
                "files"@ => JsonView::Arr(Seq::empty()),
            ],
        ),
        args::card(
            "repo_summary"@,
            "RepoMap cards are not built yet; run ingest to populate compact file summaries."@,
            args::budget_of(args, 1200),
            Seq::empty(),
            Seq::empty(),
        ),
    )
}

/// The answer with the files that were found.
pub open spec fn repo_summary(args: JsonView, rows: Seq<FileRow>) -> JsonView {
    let detail = args::str_or(args, "detail"@, "file_index"@);
    let files = file_list(rows, args);
    args::with_card(
        JsonView::Obj(
            map![
                "detail"@ => JsonView::Str(detail),
                "count"@ => JsonView::Int(rows.len() as int),
                "files"@ => JsonView::Arr(files),
            ],
        ),
        args::card(
            "repo_summary"@,
            "Returned "@ + decimal::digits(rows.len())
                + " PageRank-ranked file cards at detail="@ + detail + "."@,
            args::budget_of(args, 1200),
            file_evidence(args::first_of(files, 8)),
            Seq::empty(),
        ),
    )
}

/// The name of a top symbol alone.
fn keep_name(symbol: &Json) -> (r: Json)
    ensures
        r@ == named_only(symbol@),
{
    match symbol {
        Json::Object(_) => Json::object().with("name", args::copied_field(symbol, "name")),
        _ => symbol.copy(),
    }
}

/// The names of the top symbols of a file.
fn keep_names(top: &Option<Json>) -> (r: Json)
    ensures
        r@ == symbol_names(
            match *top {
                Some(j) => Some(j@),
                None => None,
            },
        ),
{
    let mut out: Vec<Json> = Vec::new();
    if let Some(v) = top {
        if let Some(items) = v.as_array() {
            let mut i: usize = 0;
            while i < items.len()
                invariant
                    i <= items@.len(),
                    out@.len() == i,
                    forall|j: int| 0 <= j < i ==> (#[trigger] out@[j])@ == named_only(items@[j]@),
                decreases items@.len() - i,
            {
                out.push(keep_name(&items[i]));
                i += 1;
            }
            let r = Json::array(out);
            assert(r@->Arr_0 =~= symbol_names(Some(v@))->Arr_0);
            return r;
        }
    }
    let r = Json::array(out);
    assert(r@->Arr_0 =~= Seq::<JsonView>::empty());
    assert(symbol_names(None)->Arr_0 =~= Seq::<JsonView>::empty());
    r
}

/// The card of a file, before projection. `top` is what the stored top
/// symbols parse to.
pub fn build_file_card(path: &str, pagerank: &Json, top: &Option<Json>, detail: &str) -> (r: Json)
    ensures
        r@ == file_card(
            path@,
            pagerank@,
            match *top {
                Some(j) => Some(j@),
                None => None,
            },
            detail@,
        ),
{
    let base = Json::object().with("path", Json::text(path)).with("pagerank", pagerank.copy());
    if text::same(detail, "minimal") {
        return base;
    }
    let symbols = if text::same(detail, "file_index") {
        keep_names(top)
    } else {
        match top {
            Some(v) => v.copy(),
            None => {
                let none: Vec<Json> = Vec::new();
                let r = Json::array(none);
                assert(r@->Arr_0 =~= Seq::<JsonView>::empty());
                r
            },
        }
    };
    base.with("top_symbols", symbols)
}

/// At most the first eight files, as an answer card shows them.
fn show_files(files: &Vec<Json>) -> (r: Vec<Json>)
    ensures
        json::json_views(r@) == file_evidence(args::first_of(json::json_views(files@), 8)),
{
    let ghost all = json::json_views(files@);
    let to: usize = if files.len() > 8 { 8 } else { files.len() };
    let mut out: Vec<Json> = Vec::new();
    let mut i: usize = 0;
    assert(all.take(0) =~= Seq::empty());
    assert(json::json_views(out@) =~= file_evidence(all.take(0)));
    while i < to
        invariant
            i <= to <= files@.len(),
            all == json::json_views(files@),
            json::json_views(out@) == file_evidence(all.take(i as int)),
        decreases to - i,
    {
        let f = &files[i];
        let ghost before = out@;
        assert(all.take(i + 1).drop_last() =~= all.take(i as int));
        if let Some(p) = f.get("path") {
            out.push(
                Json::object().with("path", p.copy()).with("pagerank", args::copied_field(f, "pagerank")),
            );
            assert(json::json_views(out@) =~= json::json_views(before).push(
                out@[out@.len() - 1]@,
            ));
        }
        i += 1;
    }
    assert(all.take(to as int) =~= args::first_of(all, 8));
    out
}

/// The answer of `helios_repo_summary`.
pub fn repo_summary_handler(args: &Json, found: &FileCards) -> (r: Result<Json, String>)
    ensures
        match *found {
            FileCards::NotBuilt => r is Ok && r->Ok_0@ == no_file_cards(args@),
            FileCards::Failed(e) => r is Err && r->Err_0@ == "query failed: "@ + e@,
            FileCards::Rows(rows) => r is Ok && r->Ok_0@ == repo_summary(args@, rows@),
        },
{
    let none: Vec<Json> = Vec::new();
    let omitted: Vec<Json> = Vec::new();
    assert(json::json_views(none@) =~= Seq::empty());
    match found {
        FileCards::NotBuilt => {
            let files: Vec<Json> = Vec::new();
            let payload = Json::object().with("status", Json::text("cards_not_built")).with(
                "message",
                Json::text(
                    "_hdb_plugin_repomap_cards not present. Re-run `heliosdb-codekb-mcp ingest --source <root>` after Layer 3 (distill) lands to populate the table.",
                ),
            ).with("files", Json::array(files));
            Ok(
                args::attach_answer_card(
                    payload,
                    "repo_summary",
                    "RepoMap cards are not built yet; run ingest to populate compact file summaries.",
                    none,
                    args,
                    1200,
                    omitted,
                ),
            )
        },
        FileCards::Failed(e) => Err(text::cat2("query failed: ", e.as_str())),
        FileCards::Rows(rows) => {
            let detail = args.str_of("detail").unwrap_or("file_index");
            let names = args::arg_field_set(args);
            let mut files: Vec<Json> = Vec::new();
            let mut i: usize = 0;
            while i < rows.len()
                invariant
                    i <= rows@.len(),
                    files@.len() == i,
                    detail@ == args::str_or(args@, "detail"@, "file_index"@),
                    (match names {
                        Some(n) => Some(text::views(n@)),
                        None => None,
                    }) == args::field_names(args@),
                    forall|j: int|
                        0 <= j < i ==> (#[trigger] files@[j])@ == file_list(rows@, args@)[j],
                decreases rows@.len() - i,
            {
                let row = &rows[i];
                let path = text_of_cell(&row.path);
                let top = json::parse(text_of_cell(&row.top_symbols).as_str());
                let full = build_file_card(path.as_str(), &row.pagerank, &top, detail);
                files.push(args::project(full, &names));
                i += 1;
            }
            assert(json::json_views(files@) =~= file_list(rows@, args@));
            let evidence = show_files(&files);
            let mut summary = text::cat3(
                "Returned ",
                decimal::unsigned_text(rows.len() as u64).as_str(),
                " PageRank-ranked file cards at detail=",
            );
            summary.append(detail);
            summary.append(".");
            let payload = Json::object().with("detail", Json::text(detail)).with(
                "count",
                Json::number(files.len()),
            ).with("files", Json::array(files));
            Ok(
                args::attach_answer_card(
                    payload,
                    "repo_summary",
                    summary.as_str(),
                    evidence,
                    args,
                    1200,
                    omitted,
                ),
            )
        },
    }
}

/// The files of an answer are those of the rows, in their order, each with
/// its own path and rank, as far as no projection leaves them out.
pub proof fn file_cards_follow_the_rows(args: JsonView, rows: Seq<FileRow>, i: int)
    requires
        0 <= i < rows.len(),
        args::field_names(args) is None,
    ensures
        ({
            let answer = repo_summary(args, rows);
            &&& json::field(answer, "count"@) == Some(JsonView::Int(rows.len() as int))
            &&& json::items_field(answer, "files"@) matches Some(list) && {
                &&& list.len() == rows.len()
                &&& rows[i].path matches Cell::Text(p) ==> json::str_field(list[i], "path"@)
                    == Some(p@)
                &&& json::field(list[i], "pagerank"@) == Some(rows[i].pagerank@)
            }
        }),
{
    lemma_file_names();
}

/// The names of the fields of an answer and of its files are different.
proof fn lemma_file_names()
    ensures
        "detail"@.len() == 6 && "count"@.len() == 5 && "files"@.len() == 5,
        "count"@ != "files"@,
        "schema"@.len() == 6 && "answer_card"@.len() == 11,
        "detail"@ != "schema"@,
        "path"@.len() == 4 && "pagerank"@.len() == 8 && "top_symbols"@.len() == 11,
{
    reveal_strlit("detail");
    reveal_strlit("count");
    reveal_strlit("files");
    reveal_strlit("schema");
    reveal_strlit("answer_card");
    reveal_strlit("path");
    reveal_strlit("pagerank");
    reveal_strlit("top_symbols");
    assert("count"@[0] != "files"@[0]);
    assert("detail"@[0] != "schema"@[0]);
}

/// The detail of a call decides how much of the top symbols is shown: nothing
/// of them where it is minimal, their names alone in the file index, all that
/// is stored in the symbol index.
pub proof fn detail_decides_what_is_shown(
    path: Seq<char>,
    pagerank: JsonView,
    symbols: Seq<JsonView>,
    k: int,
    name: JsonView,
)
    requires
        0 <= k < symbols.len(),
        json::field(symbols[k], "name"@) == Some(name),
    ensures
        ({
            let top = Some(JsonView::Arr(symbols));
            let minimal = file_card(path, pagerank, top, "minimal"@);
            let index = file_card(path, pagerank, top, "file_index"@);
            let full = file_card(path, pagerank, top, "symbol_index"@);
            &&& json::field(minimal, "top_symbols"@) is None
            &&& json::field(full, "top_symbols"@) == Some(JsonView::Arr(symbols))
            &&& json::items_field(index, "top_symbols"@) matches Some(shown) && {
                &&& shown.len() == symbols.len()
                &&& json::field(shown[k], "name"@) == Some(name)
                &&& forall|key: Seq<char>|
                    key != "name"@ ==> json::field(shown[k], key) is None
            }
        }),
{
    lemma_file_names();
    reveal_strlit("minimal");
    reveal_strlit("file_index");
    reveal_strlit("symbol_index");
    assert("minimal"@.len() == 7 && "file_index"@.len() == 10 && "symbol_index"@.len() == 12);
}

/// A call that does not say how many files it wants gets fifty, and one that
/// does gets them, from one up to five hundred.
pub proof fn file_limits_are_kept(args: JsonView)
    ensures
        json::int_field(args, "limit"@) is None ==> file_limit(args) == 50,
        json::int_field(args, "limit"@) matches Some(n) ==> {
            &&& 1 <= n <= 500 ==> file_limit(args) == n
            &&& n > 500 ==> file_limit(args) == 500
            &&& n < 1 ==> file_limit(args) == 1
        },
{
}

/// An answer card shows path and rank of the first files that it lists.
pub proof fn evidence_shows_the_first_files(args: JsonView, rows: Seq<FileRow>, i: int)
    requires
        0 <= i < rows.len(),
        i < 8,
        args::field_names(args) is None,
    ensures
        ({
            let shown = file_evidence(args::first_of(file_list(rows, args), 8));
            &&& i < shown.len()
            &&& shown.len() <= 8
            &&& rows[i].path matches Cell::Text(p) ==> json::str_field(shown[i], "path"@) == Some(
                p@,
            )
            &&& json::field(shown[i], "pagerank"@) == Some(rows[i].pagerank@)
        }),
{
    lemma_file_names();
    let files = args::first_of(file_list(rows, args), 8);
    assert forall|k: int| 0 <= k < files.len() implies json::field(#[trigger] files[k], "path"@)
        == Some(JsonView::Str(cell_text(rows[k].path))) && json::field(files[k], "pagerank"@)
        == Some(rows[k].pagerank@) by {
        assert(files[k] == file_list(rows, args)[k]);
    }
    lemma_evidence(files);
    assert(file_evidence(files)[i] == JsonView::Obj(
        map![
            "path"@ => json::field(files[i], "path"@)->0,
            "pagerank"@ => args::field_or_null(files[i], "pagerank"@),
        ],
    ));
}

/// Files that all have a path are all evidence, in their order.
proof fn lemma_evidence(files: Seq<JsonView>)
    requires
        forall|k: int|
            0 <= k < files.len() ==> json::field(#[trigger] files[k], "path"@) is Some,
    ensures
        file_evidence(files).len() == files.len(),
        forall|k: int|
            0 <= k < files.len() ==> #[trigger] file_evidence(files)[k] == JsonView::Obj(
                map![
                    "path"@ => json::field(files[k], "path"@)->0,
                    "pagerank"@ => args::field_or_null(files[k], "pagerank"@),
                ],
            ),
    decreases files.len(),
{
    if files.len() > 0 {
        let head = files.drop_last();
        assert forall|k: int| 0 <= k < head.len() implies json::field(#[trigger] head[k], "path"@)
            is Some by {
            assert(head[k] == files[k]);
        }
        lemma_evidence(head);
        assert(files.last() == files[files.len() - 1]);
        assert forall|k: int| 0 <= k < files.len() implies #[trigger] file_evidence(files)[k]
            == JsonView::Obj(
            map![
                "path"@ => json::field(files[k], "path"@)->0,
                "pagerank"@ => args::field_or_null(files[k], "pagerank"@),
            ],
        ) by {
            if k < head.len() {
                assert(file_evidence(files)[k] == file_evidence(head)[k]);
                assert(head[k] == files[k]);
            }
        }
    }
}

} // verus!
