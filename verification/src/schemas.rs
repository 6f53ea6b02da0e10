//! The input schemas of the wrapper tools.

use vstd::prelude::*;
use vstd::string::*;

use crate::json::Json;
use crate::json::JsonView;
use crate::text;

verus! {

pub const QUESTION_ABOUT: &'static str = "Natural-language repository question to route through the smallest applicable CodeKB wrapper.";

pub const MODE_ABOUT: &'static str = "Intent hint. answer returns compact evidence; edit favors exact paths/lines; audit favors broader coverage.";

pub const ASK_BUDGET_ABOUT: &'static str = "Approximate response budget. The server returns snippets/evidence inside this budget instead of arbitrary byte truncation.";

pub const DETAIL_ABOUT: &'static str = "Card density. minimal: just file paths + pagerank. file_index: + top symbols per file. symbol_index: + signature snippets.";

pub const LIMIT_ABOUT: &'static str = "Max files to return (by pagerank).";

pub const FILE_FIELDS_ABOUT: &'static str = "Optional projection on per-file cards. Choices: path, pagerank, top_symbols. Omit for all.";

pub const REPO_BUDGET_ABOUT: &'static str = "Approximate response budget for the answer_card/evidence.";

pub const SEED_ABOUT: &'static str = "Seed text matched against DocSection titles + text.";

pub const SECTION_ABOUT: &'static str = "node_id of the DocSection (from helios_outline_first).";

pub const LANG_ABOUT: &'static str = "Filter by symbol language (rust, python, …).";

pub const KIND_ABOUT: &'static str = "Filter by symbol kind (function, struct, …).";

pub const GLOB_ABOUT: &'static str = "Filter by file-path glob (e.g. src/storage/%).";

pub const BASE_ABOUT: &'static str = "Base commit SHA.";

pub const HEAD_ABOUT: &'static str = "Head commit SHA.";

pub const PATHS_ABOUT: &'static str = "Optional file-path filter. Empty = diff the whole tree.";

pub const SYMBOL_ABOUT: &'static str = "Symbol name. Bare name (`new`) or qualified (`MyType::new`); the engine resolves.";

pub const CARD_FIELDS_ABOUT: &'static str = "Optional projection — when set, only these fields are returned. Choices: qualified, signature, doc1l, llm_summary, file, line, callers, callees. Omit for all fields.";

/// A property of the given type.
pub open spec fn typed(kind: Seq<char>) -> JsonView {
    JsonView::Obj(map!["type"@ => JsonView::Str(kind)])
}

/// A property of the given type with a description.
pub open spec fn described(kind: Seq<char>, about: Seq<char>) -> JsonView {
    JsonView::Obj(map!["type"@ => JsonView::Str(kind), "description"@ => JsonView::Str(about)])
}

/// An integer property with a default and bounds.
pub open spec fn ranged(default: int, least: int, most: int) -> JsonView {
    JsonView::Obj(
        map![
            "type"@ => JsonView::Str("integer"@),
            "default"@ => JsonView::Int(default),
            "minimum"@ => JsonView::Int(least),
            "maximum"@ => JsonView::Int(most),
        ],
    )
}

/// An integer property with a default, bounds and a description.
pub open spec fn ranged_about(default: int, least: int, most: int, about: Seq<char>) -> JsonView {
    JsonView::Obj(
        map![
            "type"@ => JsonView::Str("integer"@),
            "default"@ => JsonView::Int(default),
            "minimum"@ => JsonView::Int(least),
            "maximum"@ => JsonView::Int(most),
            "description"@ => JsonView::Str(about),
        ],
    )
}

/// The array of some strings.
pub open spec fn strings(items: Seq<Seq<char>>) -> JsonView {
    JsonView::Arr(Seq::new(items.len(), |i: int| JsonView::Str(items[i])))
}

/// A string property with a fixed choice of values.
pub open spec fn choice(values: Seq<Seq<char>>, default: Seq<char>, about: Seq<char>) -> JsonView {
    JsonView::Obj(
        map![
            "type"@ => JsonView::Str("string"@),
            "enum"@ => strings(values),
            "default"@ => JsonView::Str(default),
            "description"@ => JsonView::Str(about),
        ],
    )
}

/// A property that lists strings.
pub open spec fn names(about: Seq<char>) -> JsonView {
    JsonView::Obj(
        map![
            "type"@ => JsonView::Str("array"@),
            "items"@ => typed("string"@),
            "description"@ => JsonView::Str(about),
        ],
    )
}

/// The schema of an object with the given properties.
pub open spec fn object_schema(properties: JsonView) -> JsonView {
    JsonView::Obj(map!["type"@ => JsonView::Str("object"@), "properties"@ => properties])
}

/// The schema of an object with the given properties, some of them required.
pub open spec fn requiring(required: Seq<Seq<char>>, properties: JsonView) -> JsonView {
    JsonView::Obj(
        map![
            "type"@ => JsonView::Str("object"@),
            "required"@ => strings(required),
            "properties"@ => properties,
        ],
    )
}

fn typed_property(kind: &str) -> (r: Json)
    ensures
        r@ == typed(kind@),
{
    Json::object().with("type", Json::text(kind))
}

pub fn described_property(kind: &str, about: &str) -> (r: Json)
    ensures
        r@ == described(kind@, about@),
{
    Json::object().with("type", Json::text(kind)).with("description", Json::text(about))
}

fn ranged_property(default: usize, least: usize, most: usize) -> (r: Json)
    ensures
        r@ == ranged(default as int, least as int, most as int),
{
    Json::object().with("type", Json::text("integer")).with("default", Json::number(default)).with(
        "minimum",
        Json::number(least),
    ).with("maximum", Json::number(most))
}

fn ranged_about_property(default: usize, least: usize, most: usize, about: &str) -> (r: Json)
    ensures
        r@ == ranged_about(default as int, least as int, most as int, about@),
{
    ranged_property(default, least, most).with("description", Json::text(about))
}

/// The array of the strings `items`.
pub fn string_array(items: &Vec<&str>) -> (r: Json)
    ensures
        r@ == strings(text::str_views(items@)),
{
    let r = Json::texts(items);
    assert(r@->Arr_0 =~= strings(text::str_views(items@))->Arr_0);
    r
}

fn choice_property(values: &Vec<&str>, default: &str, about: &str) -> (r: Json)
    ensures
        r@ == choice(text::str_views(values@), default@, about@),
{
    Json::object().with("type", Json::text("string")).with("enum", string_array(values)).with(
        "default",
        Json::text(default),
    ).with("description", Json::text(about))
}

fn names_property(about: &str) -> (r: Json)
    ensures
        r@ == names(about@),
{
    Json::object().with("type", Json::text("array")).with("items", typed_property("string")).with(
        "description",
        Json::text(about),
    )
}

fn object_of(properties: Json) -> (r: Json)
    ensures
        r@ == object_schema(properties@),
{
    Json::object().with("type", Json::text("object")).with("properties", properties)
}

pub fn requiring_of(required: &Vec<&str>, properties: Json) -> (r: Json)
    ensures
        r@ == requiring(text::str_views(required@), properties@),
{
    Json::object().with("type", Json::text("object")).with("required", string_array(required)).with(
        "properties",
        properties,
    )
}

/// The input schema of `helios_ask`.
pub open spec fn ask_input() -> JsonView {
    requiring(seq!["question"@], JsonView::Obj(
        map![
            "question"@ => described("string"@, QUESTION_ABOUT@),
            "mode"@ => choice(seq!["answer"@, "audit"@, "edit"@, "navigate"@], "answer"@, MODE_ABOUT@),
            "budget_tokens"@ => ranged_about(1500, 200, 8000, ASK_BUDGET_ABOUT@),
        ],
    ))
}

/// The input schema of `helios_ask`.
pub fn ask_schema() -> (r: Json)
    ensures
        r@ == ask_input(),
{
    let values = vec!["answer", "audit", "edit", "navigate"];
    assert(text::str_views(values@) =~= seq!["answer"@, "audit"@, "edit"@, "navigate"@]);
    let required = vec!["question"];
    assert(text::str_views(required@) =~= seq!["question"@]);
    let mut properties = Json::object();
    properties.put("question", described_property("string", QUESTION_ABOUT));
    properties.put("mode", choice_property(&values, "answer", MODE_ABOUT));
    properties.put("budget_tokens", ranged_about_property(1500, 200, 8000, ASK_BUDGET_ABOUT));
    requiring_of(&required, properties)
}

/// The input schema of `helios_repo_summary`.
pub open spec fn repo_summary_input() -> JsonView {
    object_schema(JsonView::Obj(
        map![
            "detail"@ => choice(seq!["minimal"@, "file_index"@, "symbol_index"@], "file_index"@, DETAIL_ABOUT@),
            "limit"@ => ranged_about(50, 1, 500, LIMIT_ABOUT@),
            "fields"@ => names(FILE_FIELDS_ABOUT@),
            "budget_tokens"@ => ranged_about(1200, 200, 8000, REPO_BUDGET_ABOUT@),
        ],
    ))
}

/// The input schema of `helios_repo_summary`.
pub fn repo_summary_schema() -> (r: Json)
    ensures
        r@ == repo_summary_input(),
{
    let values = vec!["minimal", "file_index", "symbol_index"];
    assert(text::str_views(values@) =~= seq!["minimal"@, "file_index"@, "symbol_index"@]);
    let mut properties = Json::object();
    properties.put("detail", choice_property(&values, "file_index", DETAIL_ABOUT));
    properties.put("limit", ranged_about_property(50, 1, 500, LIMIT_ABOUT));
    properties.put("fields", names_property(FILE_FIELDS_ABOUT));
    properties.put("budget_tokens", ranged_about_property(1200, 200, 8000, REPO_BUDGET_ABOUT));
    object_of(properties)
}

/// The input schema of `helios_outline_first`.
pub open spec fn outline_first_input() -> JsonView {
    requiring(seq!["query"@], JsonView::Obj(
        map![
            "query"@ => described("string"@, SEED_ABOUT@),
            "max_sections"@ => ranged(20, 1, 100),
            "budget_tokens"@ => ranged(1200, 200, 8000),
        ],
    ))
}

/// The input schema of `helios_outline_first`.
pub fn outline_first_schema() -> (r: Json)
    ensures
        r@ == outline_first_input(),
{
    let required = vec!["query"];
    assert(text::str_views(required@) =~= seq!["query"@]);
    let mut properties = Json::object();
    properties.put("query", described_property("string", SEED_ABOUT));
    properties.put("max_sections", ranged_property(20, 1, 100));
    properties.put("budget_tokens", ranged_property(1200, 200, 8000));
    requiring_of(&required, properties)
}

/// The input schema of `helios_doc_drill`.
pub open spec fn doc_drill_input() -> JsonView {
    requiring(seq!["section_id"@], JsonView::Obj(
        map![
            "section_id"@ => described("integer"@, SECTION_ABOUT@),
            "max_chunks"@ => ranged(10, 1, 50),
            "budget_tokens"@ => ranged(1500, 200, 12000),
        ],
    ))
}

/// The input schema of `helios_doc_drill`.
pub fn doc_drill_schema() -> (r: Json)
    ensures
        r@ == doc_drill_input(),
{
    let required = vec!["section_id"];
    assert(text::str_views(required@) =~= seq!["section_id"@]);
    let mut properties = Json::object();
    properties.put("section_id", described_property("integer", SECTION_ABOUT));
    properties.put("max_chunks", ranged_property(10, 1, 50));
    properties.put("budget_tokens", ranged_property(1500, 200, 12000));
    requiring_of(&required, properties)
}

/// The input schema of `helios_semantic_filter`.
pub open spec fn semantic_filter_input() -> JsonView {
    requiring(seq!["query"@], JsonView::Obj(
        map![
            "query"@ => typed("string"@),
            "k"@ => ranged(5, 1, 50),
            "where_lang"@ => described("string"@, LANG_ABOUT@),
            "where_kind"@ => described("string"@, KIND_ABOUT@),
            "where_path_glob"@ => described("string"@, GLOB_ABOUT@),
            "budget_tokens"@ => ranged(1200, 200, 8000),
        ],
    ))
}

/// The input schema of `helios_semantic_filter`.
pub fn semantic_filter_schema() -> (r: Json)
    ensures
        r@ == semantic_filter_input(),
{
    let required = vec!["query"];
    assert(text::str_views(required@) =~= seq!["query"@]);
    let mut properties = Json::object();
    properties.put("query", typed_property("string"));
    properties.put("k", ranged_property(5, 1, 50));
    properties.put("where_lang", described_property("string", LANG_ABOUT));
    properties.put("where_kind", described_property("string", KIND_ABOUT));
    properties.put("where_path_glob", described_property("string", GLOB_ABOUT));
    properties.put("budget_tokens", ranged_property(1200, 200, 8000));
    requiring_of(&required, properties)
}

/// The input schema of `helios_git_summary`.
pub open spec fn git_summary_input() -> JsonView {
    requiring(seq!["commit_a"@, "commit_b"@], JsonView::Obj(
        map![
            "commit_a"@ => described("string"@, BASE_ABOUT@),
            "commit_b"@ => described("string"@, HEAD_ABOUT@),
            "paths"@ => names(PATHS_ABOUT@),
            "budget_tokens"@ => ranged(1500, 200, 12000),
        ],
    ))
}

/// The input schema of `helios_git_summary`.
pub fn git_summary_schema() -> (r: Json)
    ensures
        r@ == git_summary_input(),
{
    let required = vec!["commit_a", "commit_b"];
    assert(text::str_views(required@) =~= seq!["commit_a"@, "commit_b"@]);
    let mut properties = Json::object();
    properties.put("commit_a", described_property("string", BASE_ABOUT));
    properties.put("commit_b", described_property("string", HEAD_ABOUT));
    properties.put("paths", names_property(PATHS_ABOUT));
    properties.put("budget_tokens", ranged_property(1500, 200, 12000));
    requiring_of(&required, properties)
}

/// The input schema of `helios_symbol_card`.
pub open spec fn symbol_card_input() -> JsonView {
    requiring(seq!["qualified_name"@], JsonView::Obj(
        map![
            "qualified_name"@ => described("string"@, SYMBOL_ABOUT@),
            "max_callers"@ => ranged(5, 0, 50),
            "max_callees"@ => ranged(5, 0, 50),
            "fields"@ => names(CARD_FIELDS_ABOUT@),
            "budget_tokens"@ => ranged(1200, 200, 8000),
        ],
    ))
}

/// The input schema of `helios_symbol_card`.
pub fn symbol_card_schema() -> (r: Json)
    ensures
        r@ == symbol_card_input(),
{
    let required = vec!["qualified_name"];
    assert(text::str_views(required@) =~= seq!["qualified_name"@]);
    let mut properties = Json::object();
    properties.put("qualified_name", described_property("string", SYMBOL_ABOUT));
    properties.put("max_callers", ranged_property(5, 0, 50));
    properties.put("max_callees", ranged_property(5, 0, 50));
    properties.put("fields", names_property(CARD_FIELDS_ABOUT));
    properties.put("budget_tokens", ranged_property(1200, 200, 8000));
    requiring_of(&required, properties)
}

} // verus!
