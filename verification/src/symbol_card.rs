//! `helios_symbol_card`: one symbol with its documentation, its callers and
//! its callees.

use vstd::prelude::*;
use vstd::string::*;

use crate::args;
use crate::cells;
use crate::cells::Cell;
use crate::json;
use crate::json::Json;
use crate::json::JsonView;
use crate::text;

verus! {

/// A definition. What is shown as it came is JSON.
pub struct Definition {
    pub qualified: String,
    pub signature: Json,
    pub path: Json,
    pub line: Json,
}

/// A place that refers to a symbol.
pub struct Reference {
    pub path: Json,
    pub line: Json,
    pub caller_symbol_id: Json,
}

/// A symbol that a symbol calls.
pub struct Callee {
    pub qualified: Json,
    pub path: Json,
    pub line: Json,
}

/// What the database knows of a symbol.
pub struct SymbolFacts {
    pub definition: Definition,
    /// The first row of the symbol's stored card: its documentation line and its summary.
    pub card: Option<Vec<Cell>>,
    /// The documentation that the code graph holds, where it was asked for.
    pub hover: Option<String>,
    pub callers: Vec<Reference>,
    pub callees: Vec<Callee>,
}

/// What the lookup of a symbol returned.
pub enum SymbolLookup {
    /// The code graph is not built.
    NotBuilt,
    /// There is no definition.
    Missing,
    Found(SymbolFacts),
}

/// What a call asks for.
pub struct SymbolPlan {
    pub qualified: String,
    /// The last segment of the qualified name.
    pub bare: String,
    pub max_callers: usize,
    pub max_callees: usize,
}

/// The query for a symbol's stored card.
pub const CARD_SQL: &'static str = "SELECT doc1l, llm_summary FROM _hdb_plugin_symbol_cards WHERE qualified = $1";

/// The query for a symbol's stored card in a table without summaries.
pub const CARD_WITHOUT_SUMMARY_SQL: &'static str = "SELECT doc1l FROM _hdb_plugin_symbol_cards WHERE qualified = $1";

/// The number of callers or callees that a call asks for.
pub open spec fn relation_limit(args: JsonView, key: Seq<char>) -> int {
    args::clamped(args::int_or(args, key, 5), 0, 50)
}

/// What a call asks for.
pub fn symbol_card_plan(args: &Json) -> (r: Result<SymbolPlan, String>)
    ensures
        match json::str_field(args@, "qualified_name"@) {
            None => r is Err && r->Err_0@ == args::missing_string("qualified_name"@),
            Some(q) => r is Ok && r->Ok_0.qualified@ == q && r->Ok_0.bare@ == text::after_last(
                q,
                "::"@,
            ) && r->Ok_0.max_callers == relation_limit(args@, "max_callers"@)
                && r->Ok_0.max_callees == relation_limit(args@, "max_callees"@),
        },
{
    match args::arg_str(args, "qualified_name") {
        Err(e) => Err(e),
        Ok(q) => Ok(
            SymbolPlan {
                qualified: q.to_string(),
                bare: text::tail_after_last(q, "::"),
                max_callers: args::arg_within(args, "max_callers", 5, 0, 50) as usize,
                max_callees: args::arg_within(args, "max_callees", 5, 0, 50) as usize,
            },
        ),
    }
}

/// Column `idx` of a stored card; empty where there is no card.
pub open spec fn card_column(card: Option<Vec<Cell>>, idx: int) -> Seq<char> {
    match card {
        Some(row) => cells::text_at(row@, idx),
        None => Seq::empty(),
    }
}

/// Whether a stored card says nothing of a symbol, so that the code graph is asked.
pub open spec fn card_is_blank(card: Option<Vec<Cell>>) -> bool {
    card_column(card, 0).len() == 0 && card_column(card, 1).len() == 0
}

/// Whether the stored card says nothing of a symbol, so that the code graph is asked.
pub fn needs_hover(card: &Option<Vec<Cell>>) -> (r: bool)
    ensures
        r == card_is_blank(*card),
{
    match card {
        Some(row) => {
            let doc = cells::tuple_str(row, 0);
            let summary = cells::tuple_str(row, 1);
            text::chars_of(doc.as_str()).len() == 0 && text::chars_of(summary.as_str()).len() == 0
        },
        None => true,
    }
}

/// The documentation line of a symbol: that of its stored card, or where the
/// card is blank, the first line of what the code graph holds.
pub open spec fn doc_line(card: Option<Vec<Cell>>, hover: Option<Seq<char>>) -> Seq<char> {
    if card_is_blank(card) {
        match hover {
            Some(d) => text::first_chars(text::before_first(d, '\n'), 160),
            None => Seq::empty(),
        }
    } else {
        card_column(card, 0)
    }
}

/// A caller as it is listed.
pub open spec fn caller_entry(r: Reference) -> JsonView {
    JsonView::Obj(
        map![
            "path"@ => r.path@,
            "line"@ => r.line@,
            "caller_symbol_id"@ => r.caller_symbol_id@,
        ],
    )
}

/// A callee as it is listed.
pub open spec fn callee_entry(c: Callee) -> JsonView {
    JsonView::Obj(
        map!["qualified"@ => c.qualified@, "path"@ => c.path@, "line"@ => c.line@],
    )
}

/// The text of an optional string.
pub open spec fn opt_text(s: Option<String>) -> Option<Seq<char>> {
    match s {
        Some(t) => Some(t@),
        None => None,
    }
}

/// The card of a symbol, before projection.
pub open spec fn full_card(facts: SymbolFacts, max_callers: int, max_callees: int) -> JsonView {
    let callers = args::first_of(facts.callers@, max_callers);
    let callees = args::first_of(facts.callees@, max_callees);
    JsonView::Obj(
        map![
            "qualified"@ => JsonView::Str(facts.definition.qualified@),
            "signature"@ => facts.definition.signature@,
            "doc1l"@ => JsonView::Str(doc_line(facts.card, opt_text(facts.hover))),
            "llm_summary"@ => JsonView::Str(card_column(facts.card, 1)),
            "file"@ => facts.definition.path@,
            "line"@ => facts.definition.line@,
            "callers"@ => JsonView::Arr(
                Seq::new(callers.len(), |i: int| caller_entry(callers[i])),
            ),
            "callees"@ => JsonView::Arr(
                Seq::new(callees.len(), |i: int| callee_entry(callees[i])),
            ),
        ],
    )
}

/// The text of a string field that is not empty.
pub open spec fn filled(v: JsonView, key: Seq<char>) -> Option<Seq<char>> {
    match json::str_field(v, key) {
        Some(s) => if s.len() > 0 {
            Some(s)
        } else {
            None
        },
        None => None,
    }
}

/// What an answer card says of a symbol: its summary, or else its
/// documentation line, or else that its card is there.
pub open spec fn card_summary(shown: JsonView, asked: Seq<char>) -> Seq<char> {
    match filled(shown, "llm_summary"@) {
        Some(s) => s,
        None => match filled(shown, "doc1l"@) {
            Some(d) => d,
            None => "Returned compact symbol card for `"@ + args::str_or(
                shown,
                "qualified"@,
                asked,
            ) + "`."@,
        },
    }
}

/// The answer with the card of a symbol.
pub open spec fn symbol_card(
    args: JsonView,
    asked: Seq<char>,
    facts: SymbolFacts,
) -> JsonView {
    let shown = args::projected(
        full_card(
            facts,
            relation_limit(args, "max_callers"@),
            relation_limit(args, "max_callees"@),
        ),
        args::field_names(args),
    );
    args::with_card(
        shown,
        args::card(
            "symbol_card"@,
            card_summary(shown, asked),
            args::budget_of(args, 1200),
            seq![
                JsonView::Obj(
                    map![
                        "qualified"@ => args::field_or_null(shown, "qualified"@),
                        "path"@ => args::field_or_null(shown, "file"@),
                        "line"@ => args::field_or_null(shown, "line"@),
                    ],
                ),
            ],
            Seq::empty(),
        ),
    )
}

/// The answer where a symbol was not found.
pub open spec fn not_found(
    args: JsonView,
    asked: Seq<char>,
    message: Seq<char>,
    summary: Seq<char>,
) -> JsonView {
    args::with_card(
        JsonView::Obj(
            map![
                "status"@ => JsonView::Str("not_found"@),
                "query"@ => JsonView::Str(asked),
                "message"@ => JsonView::Str(message),
            ],
        ),
        args::card(
            "symbol_card"@,
            summary,
            args::budget_of(args, 1200),
            Seq::empty(),
            Seq::empty(),
        ),
    )
}

/// The answer to a call that asks for `asked`.
pub open spec fn symbol_answer(
    args: JsonView,
    asked: Seq<char>,
    found: SymbolLookup,
) -> JsonView {
    match found {
        SymbolLookup::NotBuilt => not_found(
            args,
            asked,
            "code-graph tables not yet built — run `heliosdb-codekb-mcp ingest --source <root>` first."@,
            "Code graph tables are not built yet; run ingest before symbol lookup."@,
        ),
        SymbolLookup::Missing => not_found(
            args,
            asked,
            "no definition found — try a qualified name or check the symbol exists in the indexed KB."@,
            "No definition found for `"@ + asked + "`."@,
        ),
        SymbolLookup::Found(facts) => symbol_card(args, asked, facts),
    }
}

/// Whether the field `key` is shown: nothing is projected, or the projection
/// names it.
pub open spec fn is_shown(args: JsonView, key: Seq<char>) -> bool {
    match args::field_names(args) {
        Some(names) => names.contains(key),
        None => true,
    }
}

/// The text that stands first in a stored card.
pub open spec fn stores_line(card: Option<Vec<Cell>>, line: Seq<char>) -> bool {
    match card {
        Some(row) => row@.len() > 0 && match row@[0] {
            Cell::Text(s) => s@ == line,
            _ => false,
        },
        None => false,
    }
}

/// Whether a stored card has a summary, which stands second.
pub open spec fn stores_summary(card: Option<Vec<Cell>>, summary: Seq<char>) -> bool {
    match card {
        Some(row) => row@.len() > 1 && match row@[1] {
            Cell::Text(s) => s@ == summary,
            _ => false,
        },
        None => false,
    }
}

/// What an answer shows of a symbol it has from the card of the symbol.
proof fn lemma_shown(args: JsonView, asked: Seq<char>, facts: SymbolFacts, key: Seq<char>)
    requires
        key != "schema"@,
        key != "answer_card"@,
    ensures
        ({
            let full = full_card(
                facts,
                relation_limit(args, "max_callers"@),
                relation_limit(args, "max_callees"@),
            );
            let shown = args::projected(full, args::field_names(args));
            let answer = symbol_answer(args, asked, SymbolLookup::Found(facts));
            &&& is_shown(args, key) ==> json::field(answer, key) == json::field(full, key)
                && json::field(shown, key) == json::field(full, key)
            &&& !is_shown(args, key) ==> json::field(answer, key) is None && json::field(shown, key)
                is None
            &&& json::field(answer, "answer_card"@) is Some
            &&& json::str_field(json::field(answer, "answer_card"@)->0, "summary"@) == Some(
                card_summary(shown, asked),
            )
        }),
{
    let full = full_card(
        facts,
        relation_limit(args, "max_callers"@),
        relation_limit(args, "max_callees"@),
    );
    let shown = args::projected(full, args::field_names(args));
    reveal_strlit("kind");
    reveal_strlit("summary");
    reveal_strlit("budget_tokens");
    reveal_strlit("evidence");
    reveal_strlit("omitted");
    assert("summary"@[0] != "omitted"@[0]);
    assert("budget_tokens"@.len() != "summary"@.len());
    let card = json::field(symbol_card(args, asked, facts), "answer_card"@);
    let budget = args::budget_of(args, 1200);
    args::answers_carry_their_card(
        shown,
        args::card(
            "symbol_card"@,
            card_summary(shown, asked),
            budget,
            seq![
                JsonView::Obj(
                    map![
                        "qualified"@ => args::field_or_null(shown, "qualified"@),
                        "path"@ => args::field_or_null(shown, "file"@),
                        "line"@ => args::field_or_null(shown, "line"@),
                    ],
                ),
            ],
            Seq::empty(),
        ),
        key,
    );
}

/// The names of the fields of a card are different, and none is that of a
/// field that an answer adds.
proof fn lemma_field_names()
    ensures
        "qualified"@ != "signature"@,
        "file"@ != "line"@,
        "callers"@ != "callees"@,
        "qualified"@.len() == 9 && "signature"@.len() == 9,
        "doc1l"@.len() == 5,
        "llm_summary"@.len() == 11,
        "file"@.len() == 4 && "line"@.len() == 4,
        "callers"@.len() == 7 && "callees"@.len() == 7,
        "schema"@.len() == 6 && "answer_card"@.len() == 11,
        "llm_summary"@ != "answer_card"@,
{
    reveal_strlit("qualified");
    reveal_strlit("signature");
    reveal_strlit("doc1l");
    reveal_strlit("llm_summary");
    reveal_strlit("file");
    reveal_strlit("line");
    reveal_strlit("callers");
    reveal_strlit("callees");
    reveal_strlit("schema");
    reveal_strlit("answer_card");
    assert("qualified"@[0] != "signature"@[0]);
    assert("file"@[0] != "line"@[0]);
    assert("callers"@[5] != "callees"@[5]);
    assert("llm_summary"@[0] != "answer_card"@[0]);
}

/// The fields of the card of a symbol, before projection.
proof fn lemma_full_card(facts: SymbolFacts, max_callers: int, max_callees: int)
    ensures
        ({
            let full = full_card(facts, max_callers, max_callees);
            &&& json::str_field(full, "qualified"@) == Some(facts.definition.qualified@)
            &&& json::field(full, "signature"@) == Some(facts.definition.signature@)
            &&& json::str_field(full, "doc1l"@) == Some(
                doc_line(facts.card, opt_text(facts.hover)),
            )
            &&& json::str_field(full, "llm_summary"@) == Some(card_column(facts.card, 1))
            &&& json::field(full, "file"@) == Some(facts.definition.path@)
            &&& json::field(full, "line"@) == Some(facts.definition.line@)
        }),
{
    lemma_field_names();
}

/// A stored documentation line is shown: where it is not empty and no
/// projection leaves it out, it is the field `doc1l` of the answer, and where
/// the card has no summary, also the summary of the answer card.
pub proof fn stored_documentation_is_shown(
    args: JsonView,
    asked: Seq<char>,
    facts: SymbolFacts,
    line: Seq<char>,
)
    requires
        stores_line(facts.card, line),
        line.len() > 0,
        is_shown(args, "doc1l"@),
    ensures
        ({
            let answer = symbol_answer(args, asked, SymbolLookup::Found(facts));
            &&& json::str_field(answer, "doc1l"@) == Some(line)
            &&& stores_summary(facts.card, Seq::empty()) || facts.card->0@.len() == 1 ==> (
            json::field(answer, "answer_card"@) matches Some(card) && json::str_field(
                card,
                "summary"@,
            ) == Some(line))
        }),
{
    lemma_field_names();
    lemma_shown(args, asked, facts, "doc1l"@);
    lemma_shown(args, asked, facts, "llm_summary"@);
    lemma_full_card(
        facts,
        relation_limit(args, "max_callers"@),
        relation_limit(args, "max_callees"@),
    );
    if stores_summary(facts.card, Seq::empty()) {
        assert(card_column(facts.card, 1) =~= Seq::<char>::empty());
    }
}

/// A stored summary is shown: where it is not empty and no projection leaves
/// it out, it is the field `llm_summary` of the answer and the summary of the
/// answer card.
pub proof fn stored_summary_is_shown(
    args: JsonView,
    asked: Seq<char>,
    facts: SymbolFacts,
    summary: Seq<char>,
)
    requires
        stores_summary(facts.card, summary),
        summary.len() > 0,
        is_shown(args, "llm_summary"@),
    ensures
        ({
            let answer = symbol_answer(args, asked, SymbolLookup::Found(facts));
            &&& json::str_field(answer, "llm_summary"@) == Some(summary)
            &&& json::field(answer, "answer_card"@) matches Some(card) && json::str_field(
                card,
                "summary"@,
            ) == Some(summary)
        }),
{
    lemma_field_names();
    lemma_shown(args, asked, facts, "llm_summary"@);
    lemma_full_card(
        facts,
        relation_limit(args, "max_callers"@),
        relation_limit(args, "max_callees"@),
    );
}

/// Where no card is stored, the first line of what the code graph holds is
/// shown, up to 160 characters of it.
pub proof fn graph_documentation_stands_in(
    args: JsonView,
    asked: Seq<char>,
    facts: SymbolFacts,
    line: Seq<char>,
    rest: Seq<char>,
)
    requires
        facts.card is None,
        facts.hover is Some,
        !line.contains('\n'),
        facts.hover->0@ == line || facts.hover->0@ == line.push('\n') + rest,
        line.len() <= 160,
        is_shown(args, "doc1l"@),
    ensures
        json::str_field(symbol_answer(args, asked, SymbolLookup::Found(facts)), "doc1l"@) == Some(
            line,
        ),
{
    lemma_field_names();
    lemma_shown(args, asked, facts, "doc1l"@);
    lemma_full_card(
        facts,
        relation_limit(args, "max_callers"@),
        relation_limit(args, "max_callees"@),
    );
    let hover = facts.hover->0@;
    assert forall|j: int| 0 <= j < line.len() implies hover[j] != '\n' by {
        assert(hover[j] == line[j]);
        assert(line.contains(line[j]));
    }
    text::lemma_index_of_is(hover, '\n', line.len() as int);
    assert(hover.take(line.len() as int) =~= line);
}

/// An answer shows the definition as it was found: its name, its signature,
/// its file and its line, as far as no projection leaves them out.
pub proof fn definition_is_shown(
    args: JsonView,
    asked: Seq<char>,
    facts: SymbolFacts,
)
    ensures
        ({
            let answer = symbol_answer(args, asked, SymbolLookup::Found(facts));
            &&& is_shown(args, "qualified"@) ==> json::str_field(answer, "qualified"@) == Some(
                facts.definition.qualified@,
            )
            &&& is_shown(args, "signature"@) ==> json::field(answer, "signature"@) == Some(
                facts.definition.signature@,
            )
            &&& is_shown(args, "file"@) ==> json::field(answer, "file"@) == Some(
                facts.definition.path@,
            )
            &&& is_shown(args, "line"@) ==> json::field(answer, "line"@) == Some(
                facts.definition.line@,
            )
        }),
{
    lemma_field_names();
    lemma_shown(args, asked, facts, "qualified"@);
    lemma_shown(args, asked, facts, "signature"@);
    lemma_shown(args, asked, facts, "file"@);
    lemma_shown(args, asked, facts, "line"@);
    lemma_full_card(
        facts,
        relation_limit(args, "max_callers"@),
        relation_limit(args, "max_callees"@),
    );
}

/// The answer where a symbol was not found.
fn answer_not_found(args: &Json, asked: &str, message: &str, summary: &str) -> (r: Json)
    ensures
        r@ == not_found(args@, asked@, message@, summary@),
{
    let none: Vec<Json> = Vec::new();
    let omitted: Vec<Json> = Vec::new();
    assert(json::json_views(none@) =~= Seq::empty());
    let payload = Json::object().with("status", Json::text("not_found")).with(
        "query",
        Json::text(asked),
    ).with("message", Json::text(message));
    args::attach_answer_card(payload, "symbol_card", summary, none, args, 1200, omitted)
}

/// The callers as they are listed, at most `most` of them.
fn list_callers(all: &Vec<Reference>, most: usize) -> (r: Json)
    ensures
        ({
            let callers = args::first_of(all@, most as int);
            r@ == JsonView::Arr(Seq::new(callers.len(), |i: int| caller_entry(callers[i])))
        }),
{
    let mut out: Vec<Json> = Vec::new();
    let mut i: usize = 0;
    while i < all.len() && i < most
        invariant
            i <= all@.len(),
            i <= most,
            out@.len() == i,
            forall|j: int| 0 <= j < i ==> (#[trigger] out@[j])@ == caller_entry(all@[j]),
        decreases all@.len() - i,
    {
        let c = &all[i];
        out.push(
            Json::object().with("path", c.path.copy()).with("line", c.line.copy()).with(
                "caller_symbol_id",
                c.caller_symbol_id.copy(),
            ),
        );
        i += 1;
    }
    let ghost callers = args::first_of(all@, most as int);
    assert(json::json_views(out@) =~= Seq::new(callers.len(), |i: int| caller_entry(callers[i])));
    Json::array(out)
}

/// The callees as they are listed, at most `most` of them.
fn list_callees(all: &Vec<Callee>, most: usize) -> (r: Json)
    ensures
        ({
            let callees = args::first_of(all@, most as int);
            r@ == JsonView::Arr(Seq::new(callees.len(), |i: int| callee_entry(callees[i])))
        }),
{
    let mut out: Vec<Json> = Vec::new();
    let mut i: usize = 0;
    while i < all.len() && i < most
        invariant
            i <= all@.len(),
            i <= most,
            out@.len() == i,
            forall|j: int| 0 <= j < i ==> (#[trigger] out@[j])@ == callee_entry(all@[j]),
        decreases all@.len() - i,
    {
        let c = &all[i];
        out.push(
            Json::object().with("qualified", c.qualified.copy()).with("path", c.path.copy()).with(
                "line",
                c.line.copy(),
            ),
        );
        i += 1;
    }
    let ghost callees = args::first_of(all@, most as int);
    assert(json::json_views(out@) =~= Seq::new(callees.len(), |i: int| callee_entry(callees[i])));
    Json::array(out)
}

/// The card of a symbol, before projection.
fn build_card(facts: &SymbolFacts, max_callers: usize, max_callees: usize) -> (r: Json)
    ensures
        r@ == full_card(*facts, max_callers as int, max_callees as int),
{
    let doc = if needs_hover(&facts.card) {
        match &facts.hover {
            Some(d) => text::take_chars(text::head_before(d.as_str(), '\n').as_str(), 160),
            None => String::new(),
        }
    } else {
        match &facts.card {
            Some(row) => cells::tuple_str(row, 0),
            None => String::new(),
        }
    };
    let summary = match &facts.card {
        Some(row) => cells::tuple_str(row, 1),
        None => String::new(),
    };
    let def = &facts.definition;
    Json::object().with("qualified", Json::text(def.qualified.as_str())).with(
        "signature",
        def.signature.copy(),
    ).with("doc1l", Json::Text(doc)).with("llm_summary", Json::Text(summary)).with(
        "file",
        def.path.copy(),
    ).with("line", def.line.copy()).with("callers", list_callers(&facts.callers, max_callers)).with(
        "callees",
        list_callees(&facts.callees, max_callees),
    )
}

/// The text of a string field that is not empty.
fn filled_field(v: &Json, key: &str) -> (r: Option<String>)
    ensures
        match r {
            Some(s) => filled(v@, key@) == Some(s@),
            None => filled(v@, key@) is None,
        },
{
    match v.str_of(key) {
        Some(s) => if text::chars_of(s).len() > 0 {
            Some(s.to_string())
        } else {
            None
        },
        None => None,
    }
}

/// The answer of `helios_symbol_card`, from what the lookup returned.
pub fn symbol_card_handler(args: &Json, found: &SymbolLookup) -> (r: Result<Json, String>)
    ensures
        match json::str_field(args@, "qualified_name"@) {
            None => r is Err && r->Err_0@ == args::missing_string("qualified_name"@),
            Some(q) => r is Ok && r->Ok_0@ == symbol_answer(args@, q, *found),
        },
{
    let plan = match symbol_card_plan(args) {
        Ok(p) => p,
        Err(e) => return Err(e),
    };
    let asked = plan.qualified.as_str();
    match found {
        SymbolLookup::NotBuilt => Ok(
            answer_not_found(
                args,
                asked,
                "code-graph tables not yet built — run `heliosdb-codekb-mcp ingest --source <root>` first.",
                "Code graph tables are not built yet; run ingest before symbol lookup.",
            ),
        ),
        SymbolLookup::Missing => {
            let summary = text::cat3("No definition found for `", asked, "`.");
            Ok(
                answer_not_found(
                    args,
                    asked,
                    "no definition found — try a qualified name or check the symbol exists in the indexed KB.",
                    summary.as_str(),
                ),
            )
        },
        SymbolLookup::Found(facts) => {
            let full = build_card(facts, plan.max_callers, plan.max_callees);
            let names = args::arg_field_set(args);
            let shown = args::project(full, &names);
            let mut evidence: Vec<Json> = Vec::new();
            evidence.push(
                Json::object().with("qualified", args::copied_field(&shown, "qualified")).with(
                    "path",
                    args::copied_field(&shown, "file"),
                ).with("line", args::copied_field(&shown, "line")),
            );
            assert(json::json_views(evidence@) =~= seq![evidence@[0]@]);
            let summary = match filled_field(&shown, "llm_summary") {
                Some(s) => s,
                None => match filled_field(&shown, "doc1l") {
                    Some(d) => d,
                    None => text::cat3(
                        "Returned compact symbol card for `",
                        shown.str_of("qualified").unwrap_or(asked),
                        "`.",
                    ),
                },
            };
            let omitted: Vec<Json> = Vec::new();
            assert(json::json_views(omitted@) =~= Seq::empty());
            Ok(
                args::attach_answer_card(
                    shown,
                    "symbol_card",
                    summary.as_str(),
                    evidence,
                    args,
                    1200,
                    omitted,
                ),
            )
        },
    }
}

/// The callers and the callees of a symbol are listed in their order, as many
/// as the call asks for at most, each with its own path and line.
pub proof fn relations_are_listed_in_order(
    args: JsonView,
    asked: Seq<char>,
    facts: SymbolFacts,
    i: int,
)
    requires
        args::field_names(args) is None,
        0 <= i,
    ensures
        ({
            let answer = symbol_answer(args, asked, SymbolLookup::Found(facts));
            let most_callers = relation_limit(args, "max_callers"@);
            let most_callees = relation_limit(args, "max_callees"@);
            &&& json::items_field(answer, "callers"@) matches Some(list) && {
                &&& list.len() == facts.callers@.len() || list.len() == most_callers
                &&& list.len() <= facts.callers@.len() && list.len() <= most_callers
                &&& i < list.len() ==> json::field(list[i], "path"@) == Some(
                    facts.callers@[i].path@,
                ) && json::field(list[i], "line"@) == Some(facts.callers@[i].line@)
                    && json::field(list[i], "caller_symbol_id"@) == Some(
                    facts.callers@[i].caller_symbol_id@,
                )
            }
            &&& json::items_field(answer, "callees"@) matches Some(list) && {
                &&& list.len() == facts.callees@.len() || list.len() == most_callees
                &&& list.len() <= facts.callees@.len() && list.len() <= most_callees
                &&& i < list.len() ==> json::field(list[i], "qualified"@) == Some(
                    facts.callees@[i].qualified@,
                ) && json::field(list[i], "path"@) == Some(facts.callees@[i].path@)
                    && json::field(list[i], "line"@) == Some(facts.callees@[i].line@)
            }
        }),
{
    lemma_field_names();
    reveal_strlit("path");
    reveal_strlit("caller_symbol_id");
    assert("path"@.len() == 4 && "caller_symbol_id"@.len() == 16);
    reveal_strlit("line");
    assert("path"@[0] != "line"@[0]);
    lemma_shown(args, asked, facts, "callers"@);
    lemma_shown(args, asked, facts, "callees"@);
}

/// A call that does not say how many relations it wants gets five, and one
/// that does gets them, up to fifty.
pub proof fn relation_limits_are_kept(args: JsonView, key: Seq<char>)
    ensures
        json::int_field(args, key) is None ==> relation_limit(args, key) == 5,
        json::int_field(args, key) matches Some(n) ==> {
            &&& 0 <= n <= 50 ==> relation_limit(args, key) == n
            &&& n > 50 ==> relation_limit(args, key) == 50
            &&& n < 0 ==> relation_limit(args, key) == 0
        },
{
}

} // verus!
