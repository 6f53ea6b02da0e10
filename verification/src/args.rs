//! The arguments of a tool call, and the answer card of its result.

use vstd::prelude::*;
use vstd::string::*;

use crate::json;
use crate::json::Json;
use crate::json::JsonView;
use crate::text;
use crate::utf8;

verus! {

/// The error for a string argument that is not there.
pub open spec fn missing_string(key: Seq<char>) -> Seq<char> {
    "missing required string argument `"@ + key + "`"@
}

/// The error for an integer argument that is not there.
pub open spec fn missing_integer(key: Seq<char>) -> Seq<char> {
    "missing required integer argument `"@ + key + "`"@
}

/// The string argument `key`.
pub fn arg_str<'a>(args: &'a Json, key: &str) -> (r: Result<&'a str, String>)
    ensures
        match r {
            Ok(s) => json::str_field(args@, key@) == Some(s@),
            Err(e) => json::str_field(args@, key@) is None && e@ == missing_string(key@),
        },
{
    match args.str_of(key) {
        Some(s) => Ok(s),
        None => Err(text::cat3("missing required string argument `", key, "`")),
    }
}

/// The integer argument `key`, or `default` where it is not there.
pub open spec fn int_or(args: JsonView, key: Seq<char>, default: int) -> int {
    match json::int_field(args, key) {
        Some(n) => n,
        None => default,
    }
}

/// The integer argument `key`, or `default` where it is not there.
pub fn arg_int(args: &Json, key: &str, default: i64) -> (r: i64)
    ensures
        r == int_or(args@, key@, default as int),
{
    match args.int_of(key) {
        Some(n) => n,
        None => default,
    }
}

/// The integer argument `key`.
pub fn arg_int_required(args: &Json, key: &str) -> (r: Result<i64, String>)
    ensures
        match r {
            Ok(n) => json::int_field(args@, key@) == Some(n as int),
            Err(e) => json::int_field(args@, key@) is None && e@ == missing_integer(key@),
        },
{
    match args.int_of(key) {
        Some(n) => Ok(n),
        None => Err(text::cat3("missing required integer argument `", key, "`")),
    }
}

/// The number in `least..=most` that is nearest to `n`.
pub open spec fn clamped(n: int, least: int, most: int) -> int {
    if n < least {
        least
    } else if n > most {
        most
    } else {
        n
    }
}

/// The integer argument `key`, or `default`, brought into `least..=most`.
pub fn arg_within(args: &Json, key: &str, default: i64, least: i64, most: i64) -> (r: i64)
    requires
        least <= most,
    ensures
        r == clamped(int_or(args@, key@, default as int), least as int, most as int),
        least <= r <= most,
{
    let n = arg_int(args, key, default);
    if n < least {
        least
    } else if n > most {
        most
    } else {
        n
    }
}

/// The token budget of a call.
pub open spec fn budget_of(args: JsonView, default: int) -> int {
    clamped(int_or(args, "budget_tokens"@, default), 200, 12000)
}

/// The token budget of a call: the `budget_tokens` argument, or `default`,
/// brought into the range of budgets.
pub fn arg_budget_tokens(args: &Json, default: u32) -> (r: usize)
    ensures
        r == budget_of(args@, default as int),
        200 <= r <= 12000,
{
    arg_within(args, "budget_tokens", default as i64, 200, 12000) as usize
}

/// The byte budget of a call: four bytes per token.
pub fn budget_bytes(args: &Json, default_tokens: u32) -> (r: usize)
    ensures
        r == budget_of(args@, default_tokens as int) * 4,
{
    arg_budget_tokens(args, default_tokens) * 4
}

/// The strings among some values.
pub open spec fn strings_among(items: Seq<JsonView>) -> Seq<Seq<char>>
    decreases items.len(),
{
    if items.len() == 0 {
        Seq::empty()
    } else {
        let before = strings_among(items.drop_last());
        match json::text_in(items.last()) {
            Some(s) => before.push(s),
            None => before,
        }
    }
}

/// The strings among some values, in their order.
pub fn strings_of(items: &Vec<Json>) -> (r: Vec<String>)
    ensures
        text::views(r@) == strings_among(json::json_views(items@)),
{
    let ghost all = json::json_views(items@);
    let mut out: Vec<String> = Vec::new();
    let mut i: usize = 0;
    assert(all.take(0) =~= Seq::empty());
    assert(text::views(out@) =~= strings_among(all.take(0)));
    while i < items.len()
        invariant
            i <= items@.len(),
            all == json::json_views(items@),
            text::views(out@) == strings_among(all.take(i as int)),
        decreases items@.len() - i,
    {
        assert(all.take(i + 1).drop_last() =~= all.take(i as int));
        let ghost before = out@;
        if let Some(s) = items[i].as_str() {
            out.push(s.to_string());
            assert(text::views(out@) =~= text::views(before).push(s@));
        }
        i += 1;
    }
    assert(all.take(i as int) =~= all);
    out
}

/// The names in the `fields` argument; `None` where there are none.
pub open spec fn field_names(args: JsonView) -> Option<Seq<Seq<char>>> {
    match json::items_field(args, "fields"@) {
        Some(items) => if strings_among(items).len() == 0 {
            None
        } else {
            Some(strings_among(items))
        },
        None => None,
    }
}

/// The names in the `fields` argument; `None` where there are none.
pub fn arg_field_set(args: &Json) -> (r: Option<Vec<String>>)
    ensures
        match r {
            Some(names) => field_names(args@) == Some(text::views(names@)),
            None => field_names(args@) is None,
        },
{
    match args.items_of("fields") {
        Some(items) => {
            let names = strings_of(items);
            assert(text::views(names@).len() == names@.len());
            if names.len() == 0 {
                None
            } else {
                Some(names)
            }
        },
        None => None,
    }
}

/// An object with the named fields alone. Without names, and for a value that
/// is no object, the value itself.
pub open spec fn projected(v: JsonView, names: Option<Seq<Seq<char>>>) -> JsonView {
    match (v, names) {
        (JsonView::Obj(m), Some(keep)) => JsonView::Obj(m.restrict(keep.to_set())),
        _ => v,
    }
}

/// Whether `s` is one of `list`.
pub fn is_in(s: &str, list: &Vec<String>) -> (r: bool)
    ensures
        r == text::views(list@).contains(s@),
{
    let ghost all = text::views(list@);
    let mut i: usize = 0;
    while i < list.len()
        invariant
            i <= list@.len(),
            all == text::views(list@),
            forall|j: int| 0 <= j < i ==> #[trigger] all[j] != s@,
        decreases list@.len() - i,
    {
        if text::same(list[i].as_str(), s) {
            assert(all[i as int] == s@);
            return true;
        }
        i += 1;
    }
    false
}

/// An object with the named fields alone.
pub fn project(v: Json, fields: &Option<Vec<String>>) -> (r: Json)
    ensures
        r@ == projected(
            v@,
            match *fields {
                Some(names) => Some(text::views(names@)),
                None => None,
            },
        ),
{
    match (&v, fields) {
        (Json::Object(all), Some(names)) => {
            let ghost keep = text::views(names@).to_set();
            let mut out: Vec<(String, Json)> = Vec::new();
            let mut i: usize = 0;
            assert(all@.take(0) =~= Seq::<(String, Json)>::empty());
            assert(json::fields_view(out@) =~= json::fields_view(all@.take(0)).restrict(keep));
            while i < all.len()
                invariant
                    i <= all@.len(),
                    keep == text::views(names@).to_set(),
                    json::fields_view(out@) == json::fields_view(all@.take(i as int)).restrict(keep),
                decreases all@.len() - i,
            {
                let ghost before = out@;
                let ghost upto = json::fields_view(all@.take(i as int));
                let ghost key = all@[i as int].0@;
                let ghost value = all@[i as int].1@;
                assert(all@.take(i + 1).drop_last() == all@.take(i as int));
                if is_in(all[i].0.as_str(), names) {
                    assert(keep.contains(key));
                    out.push((all[i].0.clone(), all[i].1.copy()));
                    assert(out@.drop_last() == before);
                    assert(upto.insert(key, value).restrict(keep) =~= upto.restrict(keep).insert(
                        key,
                        value,
                    ));
                } else {
                    assert(!keep.contains(key));
                    assert(upto.insert(key, value).restrict(keep) =~= upto.restrict(keep));
                }
                i += 1;
            }
            assert(all@.take(i as int) == all@);
            Json::Object(out)
        },
        _ => v,
    }
}

/// Projection keeps exactly the named fields, with their values.
pub proof fn projection_keeps_the_named_fields(
    v: JsonView,
    names: Seq<Seq<char>>,
    key: Seq<char>,
)
    ensures
        v is Obj ==> json::field(projected(v, Some(names)), key) == (if names.contains(key) {
            json::field(v, key)
        } else {
            None
        }),
        projected(v, None) == v,
{
}

/// The head of `s` that fits in `max_bytes` bytes, and the number of bytes
/// that it leaves out.
pub fn shorten_chars(s: &str, max_bytes: usize) -> (r: (String, usize))
    ensures
        r.0@ == utf8::head_within(s@, max_bytes as int),
        r.1 + utf8::byte_len(r.0@) == utf8::byte_len(s@),
{
    proof {
        utf8::head_within_is_the_longest_head(s@, max_bytes as int);
        let n = utf8::head_within(s@, max_bytes as int).len() as int;
        utf8::encoding_of_concatenation(s@.take(n), s@.skip(n));
        assert(s@.take(n) + s@.skip(n) =~= s@);
    }
    let head = utf8::cut(s, max_bytes);
    let dropped = utf8::len_of(s) - utf8::len_of(head.as_str());
    (head, dropped)
}

/// The answer card of a result.
pub open spec fn card(
    kind: Seq<char>,
    summary: Seq<char>,
    budget: int,
    evidence: Seq<JsonView>,
    omitted: Seq<JsonView>,
) -> JsonView {
    JsonView::Obj(
        map![
            "kind"@ => JsonView::Str(kind),
            "summary"@ => JsonView::Str(summary),
            "budget_tokens"@ => JsonView::Int(budget),
            "evidence"@ => JsonView::Arr(evidence),
            "omitted"@ => JsonView::Arr(omitted),
        ],
    )
}

/// A result with an answer card.
pub open spec fn with_card(payload: JsonView, card: JsonView) -> JsonView {
    json::with_field(
        json::with_field(payload, "schema"@, JsonView::Str("helios.answer_card.v1"@)),
        "answer_card"@,
        card,
    )
}

/// A result with its answer card.
pub fn attach_answer_card(
    payload: Json,
    kind: &str,
    summary: &str,
    evidence: Vec<Json>,
    args: &Json,
    default_budget_tokens: u32,
    omitted: Vec<Json>,
) -> (r: Json)
    ensures
        r@ == with_card(
            payload@,
            card(
                kind@,
                summary@,
                budget_of(args@, default_budget_tokens as int),
                json::json_views(evidence@),
                json::json_views(omitted@),
            ),
        ),
{
    let budget = arg_budget_tokens(args, default_budget_tokens);
    let card = Json::object().with("kind", Json::text(kind)).with(
        "summary",
        Json::text(summary),
    ).with("budget_tokens", Json::number(budget)).with("evidence", Json::array(evidence)).with(
        "omitted",
        Json::array(omitted),
    );
    payload.with("schema", Json::text("helios.answer_card.v1")).with("answer_card", card)
}

/// The string argument `key`, or `default` where it is not there.
pub open spec fn str_or(args: JsonView, key: Seq<char>, default: Seq<char>) -> Seq<char> {
    match json::str_field(args, key) {
        Some(s) => s,
        None => default,
    }
}

/// The field `key`, or null where it is not there.
pub open spec fn field_or_null(v: JsonView, key: Seq<char>) -> JsonView {
    match json::field(v, key) {
        Some(x) => x,
        None => JsonView::Null,
    }
}

/// A copy of the field `key`, or null where it is not there.
pub fn copied_field(v: &Json, key: &str) -> (r: Json)
    ensures
        r@ == field_or_null(v@, key@),
{
    match v.get(key) {
        Some(x) => x.copy(),
        None => Json::Null,
    }
}

/// At most the first `n` of a sequence.
pub open spec fn first_of<A>(s: Seq<A>, n: int) -> Seq<A> {
    if n < s.len() {
        s.take(n)
    } else {
        s
    }
}

/// An answer keeps the fields of its payload but the two that it adds, and
/// carries the card.
pub proof fn answers_carry_their_card(payload: JsonView, card: JsonView, key: Seq<char>)
    requires
        payload is Obj,
    ensures
        json::str_field(with_card(payload, card), "schema"@) == Some("helios.answer_card.v1"@),
        json::field(with_card(payload, card), "answer_card"@) == Some(card),
        key != "schema"@ && key != "answer_card"@ ==> json::field(with_card(payload, card), key)
            == json::field(payload, key),
{
    reveal_strlit("schema");
    reveal_strlit("answer_card");
    assert("schema"@.len() != "answer_card"@.len());
}

/// A call that does not say its budget gets the default, and one that does
/// gets it, where it is not too small or too large.
pub proof fn budgets_are_kept(args: JsonView, default: int)
    requires
        200 <= default <= 12000,
    ensures
        json::int_field(args, "budget_tokens"@) is None ==> budget_of(args, default) == default,
        json::int_field(args, "budget_tokens"@) matches Some(n) ==> {
            &&& 200 <= n <= 12000 ==> budget_of(args, default) == n
            &&& n < 200 ==> budget_of(args, default) == 200
            &&& n > 12000 ==> budget_of(args, default) == 12000
        },
{
}

/// The strings among some values are the texts of those that are strings.
pub proof fn strings_are_those_of_the_values(items: Seq<JsonView>, s: Seq<char>)
    ensures
        strings_among(items).contains(s) <==> items.contains(JsonView::Str(s)),
    decreases items.len(),
{
    let all = strings_among(items);
    if items.len() > 0 {
        let head = items.drop_last();
        let before = strings_among(head);
        strings_are_those_of_the_values(head, s);
        if all.contains(s) {
            let k = all.index_of(s);
            if k < before.len() {
                assert(before[k] == s);
                let i = head.index_of(JsonView::Str(s));
                assert(items[i] == JsonView::Str(s));
            } else {
                assert(items[items.len() - 1] == JsonView::Str(s));
            }
        }
        if items.contains(JsonView::Str(s)) {
            let i = items.index_of(JsonView::Str(s));
            if i < head.len() {
                assert(head[i] == JsonView::Str(s));
                let k = before.index_of(s);
                assert(all[k] == s);
            } else {
                assert(all[all.len() - 1] == s);
            }
        }
    }
}

} // verus!
