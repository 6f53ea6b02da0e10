//! `helios_ask`: routes a question to the wrapper that can answer it.

use vstd::prelude::*;
use vstd::string::*;

use crate::args;
use crate::json;
use crate::json::Json;
use crate::json::JsonView;
use crate::question;
use crate::text;

verus! {

/// The wrapper that a question is routed to.
#[derive(Debug, Clone, Copy, PartialEq, Eq, Structural)]
pub enum AskRoute {
    RepoSummary,
    SymbolCard,
    OutlineFirst,
}

/// The name of a route.
pub open spec fn route_name(route: AskRoute) -> Seq<char> {
    match route {
        AskRoute::RepoSummary => "repo_summary"@,
        AskRoute::SymbolCard => "symbol_card"@,
        AskRoute::OutlineFirst => "outline_first"@,
    }
}

fn name_of(route: AskRoute) -> (r: &'static str)
    ensures
        r@ == route_name(route),
{
    match route {
        AskRoute::RepoSummary => "repo_summary",
        AskRoute::SymbolCard => "symbol_card",
        AskRoute::OutlineFirst => "outline_first",
    }
}

/// The arguments of the file cards for a question.
pub open spec fn repo_args(budget: int) -> JsonView {
    JsonView::Obj(
        map![
            "detail"@ => JsonView::Str("file_index"@),
            "limit"@ => JsonView::Int(20),
            "budget_tokens"@ => JsonView::Int(budget),
        ],
    )
}

/// The arguments of the symbol card for a question.
pub open spec fn symbol_args(symbol: Seq<char>, audit: bool, budget: int) -> JsonView {
    let most: int = if audit {
        8
    } else {
        3
    };
    JsonView::Obj(
        map![
            "qualified_name"@ => JsonView::Str(symbol),
            "max_callers"@ => JsonView::Int(most),
            "max_callees"@ => JsonView::Int(most),
            "budget_tokens"@ => JsonView::Int(budget),
        ],
    )
}

/// The arguments of the outline for a question.
pub open spec fn outline_args(question: Seq<char>, sections: int, budget: int) -> JsonView {
    JsonView::Obj(
        map![
            "query"@ => JsonView::Str(question),
            "max_sections"@ => JsonView::Int(sections),
            "budget_tokens"@ => JsonView::Int(budget),
        ],
    )
}

/// The mode of a call.
pub open spec fn ask_mode(args: JsonView) -> Seq<char> {
    args::str_or(args, "mode"@, "answer"@)
}

/// Where a question goes, and with what arguments: a question about the
/// layout of the code base to the file cards, one that names a symbol to its
/// card, any other to the outline of the documentation.
pub open spec fn routed(args: JsonView, question: Seq<char>) -> (AskRoute, JsonView) {
    let budget = args::budget_of(args, 1500);
    let audit = ask_mode(args) == "audit"@;
    if question::mentions_any(question, question::architecture_phrases()) {
        (AskRoute::RepoSummary, repo_args(budget))
    } else {
        match question::symbol_term(question) {
            Some(symbol) => (AskRoute::SymbolCard, symbol_args(symbol, audit, budget)),
            None => (
                AskRoute::OutlineFirst,
                outline_args(
                    question,
                    if audit {
                        12
                    } else {
                        8
                    },
                    budget,
                ),
            ),
        }
    }
}

fn build_outline_args(question: &str, sections: usize, budget: usize) -> (r: Json)
    ensures
        r@ == outline_args(question@, sections as int, budget as int),
{
    Json::object().with("query", Json::text(question)).with(
        "max_sections",
        Json::number(sections),
    ).with("budget_tokens", Json::number(budget))
}

/// Where the question of a call goes, and with what arguments.
pub fn ask_route(args: &Json) -> (r: Result<(AskRoute, Json), String>)
    ensures
        match json::str_field(args@, "question"@) {
            None => r is Err && r->Err_0@ == args::missing_string("question"@),
            Some(q) => r is Ok && r->Ok_0.0 == routed(args@, q).0 && r->Ok_0.1@ == routed(
                args@,
                q,
            ).1,
        },
{
    let question = match args::arg_str(args, "question") {
        Ok(q) => q,
        Err(e) => return Err(e),
    };
    let mode = args.str_of("mode").unwrap_or("answer");
    let audit = text::same(mode, "audit");
    let budget = args::arg_budget_tokens(args, 1500);
    if question::looks_like_architecture_question(question) {
        let routed_args = Json::object().with("detail", Json::text("file_index")).with(
            "limit",
            Json::number(20),
        ).with("budget_tokens", Json::number(budget));
        return Ok((AskRoute::RepoSummary, routed_args));
    }
    match question::likely_symbol_term(question) {
        Some(symbol) => {
            let most: usize = if audit { 8 } else { 3 };
            let routed_args = Json::object().with("qualified_name", Json::Text(symbol)).with(
                "max_callers",
                Json::number(most),
            ).with("max_callees", Json::number(most)).with("budget_tokens", Json::number(budget));
            Ok((AskRoute::SymbolCard, routed_args))
        },
        None => {
            let sections: usize = if audit { 12 } else { 8 };
            Ok((AskRoute::OutlineFirst, build_outline_args(question, sections, budget)))
        },
    }
}

/// Whether a question that went to a symbol card goes on to the outline:
/// there is no such symbol, and documentation may answer the question.
pub open spec fn falls_back(question: Seq<char>, route: AskRoute, result: JsonView) -> bool {
    route == AskRoute::SymbolCard && json::str_field(result, "status"@) == Some("not_found"@)
        && question::mentions_any(question, question::documentation_phrases())
}

/// The arguments of the outline that a question goes on to after its first
/// answer; `None` where that answer stands.
pub fn ask_fallback(args: &Json, route: AskRoute, result: &Json) -> (r: Option<Json>)
    ensures
        match (json::str_field(args@, "question"@), r) {
            (Some(q), Some(outline)) => falls_back(q, route, result@) && outline@ == outline_args(
                q,
                8,
                args::budget_of(args@, 1500),
            ),
            (Some(q), None) => !falls_back(q, route, result@),
            (None, Some(_)) => false,
            (None, None) => true,
        },
{
    let question = match args.str_of("question") {
        Some(q) => q,
        None => return None,
    };
    if route != AskRoute::SymbolCard {
        return None;
    }
    let missing = match result.str_of("status") {
        Some(s) => text::same(s, "not_found"),
        None => false,
    };
    if missing && question::looks_like_doc_question(question) {
        let budget = args::arg_budget_tokens(args, 1500);
        Some(build_outline_args(question, 8, budget))
    } else {
        None
    }
}

/// The evidence in the answer card of a result; empty where there is none.
pub open spec fn carried_evidence(result: JsonView) -> Seq<JsonView> {
    match json::field(result, "answer_card"@) {
        Some(card) => match json::items_field(card, "evidence"@) {
            Some(items) => items,
            None => Seq::empty(),
        },
        None => Seq::empty(),
    }
}

/// The summary in the answer card of a result, or else that the question was routed.
pub open spec fn carried_summary(result: JsonView, route: AskRoute) -> Seq<char> {
    let fallback = "Routed question through "@ + route_name(route) + "."@;
    match json::field(result, "answer_card"@) {
        Some(card) => args::str_or(card, "summary"@, fallback),
        None => fallback,
    }
}

/// The answer to a question, around the result of the wrapper that it went to.
pub open spec fn asked(
    args: JsonView,
    question: Seq<char>,
    route: AskRoute,
    routed_args: JsonView,
    result: JsonView,
) -> JsonView {
    args::with_card(
        JsonView::Obj(
            map![
                "question"@ => JsonView::Str(question),
                "mode"@ => JsonView::Str(ask_mode(args)),
                "route"@ => JsonView::Str(route_name(route)),
                "routed_args"@ => routed_args,
                "result"@ => result,
            ],
        ),
        args::card(
            "ask"@,
            carried_summary(result, route),
            args::budget_of(args, 1500),
            carried_evidence(result),
            Seq::empty(),
        ),
    )
}

/// The answer of `helios_ask`, around the result of the wrapper that the
/// question went to.
pub fn ask_handler(args: &Json, route: AskRoute, routed_args: &Json, result: &Json) -> (r: Result<
    Json,
    String,
>)
    ensures
        match json::str_field(args@, "question"@) {
            None => r is Err && r->Err_0@ == args::missing_string("question"@),
            Some(q) => r is Ok && r->Ok_0@ == asked(args@, q, route, routed_args@, result@),
        },
{
    let question = match args::arg_str(args, "question") {
        Ok(q) => q,
        Err(e) => return Err(e),
    };
    let mode = args.str_of("mode").unwrap_or("answer");
    let name = name_of(route);
    let mut evidence: Vec<Json> = Vec::new();
    let mut summary = text::cat3("Routed question through ", name, ".");
    assert(json::json_views(evidence@) =~= Seq::empty());
    if let Some(card) = result.get("answer_card") {
        if let Some(items) = card.items_of("evidence") {
            evidence = json::copies(items);
        }
        if let Some(s) = card.str_of("summary") {
            summary = s.to_string();
        }
    }
    let payload = Json::object().with("question", Json::text(question)).with(
        "mode",
        Json::text(mode),
    ).with("route", Json::text(name)).with("routed_args", routed_args.copy()).with(
        "result",
        result.copy(),
    );
    let omitted: Vec<Json> = Vec::new();
    assert(json::json_views(omitted@) =~= Seq::empty());
    Ok(
        args::attach_answer_card(
            payload,
            "ask",
            summary.as_str(),
            evidence,
            args,
            1500,
            omitted,
        ),
    )
}

/// The error of `helios_semantic_filter`, which is not wired yet.
pub fn semantic_filter_handler() -> (r: Result<Json, String>)
    ensures
        r is Err,
        r->Err_0@
            == "helios_semantic_filter: not yet wired — pending engine release of `vector-persist` on crates.io. Track via NANO_PERSISTENT_PQ_HNSW_ADOPTION.md."@,
{
    Err(
        "helios_semantic_filter: not yet wired — pending engine release of `vector-persist` on crates.io. Track via NANO_PERSISTENT_PQ_HNSW_ADOPTION.md.".to_string(),
    )
}

/// A question that quotes a symbol in backticks, and does not ask for the
/// layout of the code base, goes to the card of that symbol.
pub proof fn quoted_symbols_go_to_their_card(
    args: JsonView,
    head: Seq<char>,
    term: Seq<char>,
    tail: Seq<char>,
)
    requires
        !head.contains('`'),
        term.len() > 0,
        text::is_tight(term),
        !term.contains('`'),
        !question::mentions_any(
            head + seq!['`'] + term + seq!['`'] + tail,
            question::architecture_phrases(),
        ),
    ensures
        ({
            let (route, routed_args) = routed(args, head + seq!['`'] + term + seq!['`'] + tail);
            &&& route == AskRoute::SymbolCard
            &&& json::str_field(routed_args, "qualified_name"@) == Some(term)
            &&& json::int_field(routed_args, "budget_tokens"@) == Some(args::budget_of(args, 1500))
        }),
{
    let none = Seq::<char>::empty();
    assert(head + seq!['`'] + term + seq!['`'] + tail =~= head + seq!['`'] + none + term + none
        + seq!['`'] + tail);
    question::backticks_name_the_symbol(head, none, term, none, tail);
    reveal_strlit("qualified_name");
    reveal_strlit("max_callers");
    reveal_strlit("max_callees");
    reveal_strlit("budget_tokens");
    assert("qualified_name"@.len() == 14 && "max_callers"@.len() == 11 && "max_callees"@.len()
        == 11 && "budget_tokens"@.len() == 13);
}

/// A question that names no symbol goes to the file cards where it asks for
/// the layout of the code base, and else, as it stands, to the outline.
pub proof fn other_questions_go_to_the_outline(args: JsonView, question: Seq<char>)
    requires
        question::symbol_term(question) is None,
    ensures
        ({
            let (route, routed_args) = routed(args, question);
            &&& question::mentions_any(question, question::architecture_phrases()) ==> route
                == AskRoute::RepoSummary
            &&& !question::mentions_any(question, question::architecture_phrases()) ==> route
                == AskRoute::OutlineFirst && json::str_field(routed_args, "query"@) == Some(
                question,
            )
            &&& json::int_field(routed_args, "budget_tokens"@) == Some(args::budget_of(args, 1500))
        }),
{
    reveal_strlit("query");
    reveal_strlit("max_sections");
    reveal_strlit("detail");
    reveal_strlit("limit");
    reveal_strlit("budget_tokens");
    assert("query"@.len() == 5 && "max_sections"@.len() == 12 && "budget_tokens"@.len() == 13);
    assert("detail"@.len() == 6 && "limit"@.len() == 5);
}

/// The answer to a question carries the result of the wrapper that it went
/// to, with the summary and the evidence of the result's own answer card.
pub proof fn answers_carry_the_result(
    args: JsonView,
    question: Seq<char>,
    route: AskRoute,
    routed_args: JsonView,
    result: JsonView,
    inner: JsonView,
    summary: Seq<char>,
    evidence: Seq<JsonView>,
)
    requires
        json::field(result, "answer_card"@) == Some(inner),
        json::str_field(inner, "summary"@) == Some(summary),
        json::items_field(inner, "evidence"@) == Some(evidence),
    ensures
        ({
            let answer = asked(args, question, route, routed_args, result);
            &&& json::str_field(answer, "question"@) == Some(question)
            &&& json::field(answer, "result"@) == Some(result)
            &&& json::field(answer, "routed_args"@) == Some(routed_args)
            &&& json::field(answer, "answer_card"@) matches Some(card) && {
                &&& json::str_field(card, "summary"@) == Some(summary)
                &&& json::items_field(card, "evidence"@) == Some(evidence)
            }
        }),
{
    reveal_strlit("question");
    reveal_strlit("mode");
    reveal_strlit("route");
    reveal_strlit("routed_args");
    reveal_strlit("result");
    reveal_strlit("schema");
    reveal_strlit("answer_card");
    reveal_strlit("kind");
    reveal_strlit("summary");
    reveal_strlit("budget_tokens");
    reveal_strlit("evidence");
    reveal_strlit("omitted");
    assert("question"@.len() == 8 && "mode"@.len() == 4 && "route"@.len() == 5
        && "routed_args"@.len() == 11 && "result"@.len() == 6);
    assert("schema"@.len() == 6 && "answer_card"@.len() == 11);
    assert("routed_args"@[0] != "answer_card"@[0]);
    assert("result"@[0] != "schema"@[0]);
    assert("kind"@.len() == 4 && "summary"@.len() == 7 && "budget_tokens"@.len() == 13
        && "evidence"@.len() == 8 && "omitted"@.len() == 7);
    assert("summary"@[0] != "omitted"@[0]);
}

} // verus!
