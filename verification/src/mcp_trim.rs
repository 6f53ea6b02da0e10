//! Trimming of tool results and of the advertised tool list.
//!
//! Tool results have every string cut to a byte budget, with a marker that
//! says how much was dropped. Tool lists are filtered by a profile's allow
//! list and have their descriptions shortened. Text that is not JSON, or not
//! of the expected shape, passes through unchanged.

use vstd::prelude::*;
use vstd::string::*;

use crate::decimal;
use crate::json;
use crate::json::Json;
use crate::json::JsonView;
use crate::text;
use crate::utf8;

verus! {

/// Chooses which tools are advertised. What can be called is unaffected.
#[derive(Debug, Clone, Copy, PartialEq, Eq, Structural)]
pub enum Profile {
    /// The distilled wrappers but the heavy ones, and `heliosdb_query`.
    Minimal,
    /// Every wrapper and the read-only engine tools.
    Standard,
    /// Every tool.
    Full,
}

/// How much of each tool's `description` is advertised.
#[derive(Debug, Clone, Copy, PartialEq, Eq, Structural)]
pub enum StripDescMode {
    /// All of it.
    Keep,
    /// The longest head of at most this many bytes.
    ShortenTo(usize),
    /// Nothing.
    All,
}

/// The names of the wrapper tools.
pub open spec fn wrapper_names() -> Seq<Seq<char>> {
    seq![
        "helios_ask"@,
        "helios_repo_summary"@,
        "helios_outline_first"@,
        "helios_doc_drill"@,
        "helios_semantic_filter"@,
        "helios_git_summary"@,
        "helios_symbol_card"@,
    ]
}

/// The names that the minimal profile advertises.
pub open spec fn minimal_names() -> Seq<Seq<char>> {
    seq![
        "helios_repo_summary"@,
        "helios_outline_first"@,
        "helios_doc_drill"@,
        "helios_semantic_filter"@,
        "helios_symbol_card"@,
        "heliosdb_query"@,
    ]
}

/// The names of the engine tools that the standard profile advertises.
pub open spec fn read_only_names() -> Seq<Seq<char>> {
    seq![
        "heliosdb_query"@,
        "heliosdb_hybrid_search"@,
        "helios_graphrag_search"@,
        "helios_lsp_definition"@,
        "helios_lsp_references"@,
        "helios_ast_diff"@,
    ]
}

/// The name of a profile.
pub open spec fn profile_name(p: Profile) -> Seq<char> {
    match p {
        Profile::Minimal => "minimal"@,
        Profile::Standard => "standard"@,
        Profile::Full => "full"@,
    }
}

/// The profile that a name names.
pub open spec fn profile_named(s: Seq<char>) -> Option<Profile> {
    if s == "minimal"@ {
        Some(Profile::Minimal)
    } else if s == "standard"@ {
        Some(Profile::Standard)
    } else if s == "full"@ {
        Some(Profile::Full)
    } else {
        None
    }
}

/// Whether a profile advertises the tool `name`.
pub open spec fn advertises(p: Profile, name: Seq<char>) -> bool {
    match p {
        Profile::Full => true,
        Profile::Minimal => minimal_names().contains(name),
        Profile::Standard => wrapper_names().contains(name) || read_only_names().contains(name),
    }
}

impl Profile {
    /// The profile that `s` names.
    pub fn parse(s: &str) -> (r: Result<Self, String>)
        ensures
            match r {
                Ok(p) => profile_named(s@) == Some(p),
                Err(e) => profile_named(s@) is None && e@ == "invalid profile `"@ + s@
                    + "` (expected minimal|standard|full)"@,
            },
    {
        if text::same(s, "minimal") {
            Ok(Profile::Minimal)
        } else if text::same(s, "standard") {
            Ok(Profile::Standard)
        } else if text::same(s, "full") {
            Ok(Profile::Full)
        } else {
            Err(text::cat3("invalid profile `", s, "` (expected minimal|standard|full)"))
        }
    }

    /// The name of the profile.
    pub fn as_str(self) -> (r: &'static str)
        ensures
            r@ == profile_name(self),
    {
        match self {
            Profile::Minimal => "minimal",
            Profile::Standard => "standard",
            Profile::Full => "full",
        }
    }

    /// Whether the profile advertises the tool `tool_name`.
    pub fn allows(self, tool_name: &str) -> (r: bool)
        ensures
            r == advertises(self, tool_name@),
    {
        match self {
            Profile::Full => true,
            Profile::Minimal => {
                let names = vec![
                    "helios_repo_summary",
                    "helios_outline_first",
                    "helios_doc_drill",
                    "helios_semantic_filter",
                    "helios_symbol_card",
                    "heliosdb_query",
                ];
                assert(text::str_views(names@) =~= minimal_names());
                text::among(tool_name, &names)
            },
            Profile::Standard => {
                let names = vec![
                    "heliosdb_query",
                    "heliosdb_hybrid_search",
                    "helios_graphrag_search",
                    "helios_lsp_definition",
                    "helios_lsp_references",
                    "helios_ast_diff",
                ];
                assert(text::str_views(names@) =~= read_only_names());
                text::among(tool_name, &wrapper_tool_names()) || text::among(tool_name, &names)
            },
        }
    }
}

/// The names of the wrapper tools.
pub fn wrapper_tool_names() -> (r: Vec<&'static str>)
    ensures
        text::str_views(r@) == wrapper_names(),
{
    let names = vec![
        "helios_ask",
        "helios_repo_summary",
        "helios_outline_first",
        "helios_doc_drill",
        "helios_semantic_filter",
        "helios_git_summary",
        "helios_symbol_card",
    ];
    assert(text::str_views(names@) =~= wrapper_names());
    names
}

/// The mode that a command-line value names.
pub open spec fn strip_mode_named(s: Seq<char>) -> Option<StripDescMode> {
    if s == "none"@ {
        Some(StripDescMode::Keep)
    } else if s == "all"@ {
        Some(StripDescMode::All)
    } else {
        match decimal::natural_of(s, usize::MAX as int) {
            Some(n) => Some(StripDescMode::ShortenTo(n as usize)),
            None => None,
        }
    }
}

impl StripDescMode {
    /// The mode that the command-line value `s` names: a number of bytes,
    /// `none` or `all`.
    pub fn parse(s: &str) -> (r: Result<Self, String>)
        ensures
            match r {
                Ok(m) => strip_mode_named(s@) == Some(m),
                Err(e) => strip_mode_named(s@) is None && e@
                    == "invalid --strip-tool-descriptions `"@ + s@ + "` (expected int|none|all)"@,
            },
    {
        if text::same(s, "none") {
            Ok(StripDescMode::Keep)
        } else if text::same(s, "all") {
            Ok(StripDescMode::All)
        } else {
            match decimal::read_usize(s) {
                Some(n) => Ok(StripDescMode::ShortenTo(n)),
                None => Err(
                    text::cat3("invalid --strip-tool-descriptions `", s, "` (expected int|none|all)"),
                ),
            }
        }
    }
}

/// `s` cut to `max` bytes: a text that fits is kept; of a longer one the
/// longest head that fits is kept, with a marker that counts the dropped bytes.
pub open spec fn cut_text(s: Seq<char>, max: int) -> Seq<char> {
    if utf8::byte_len(s) <= max {
        s
    } else {
        utf8::head_within(s, max) + "…[+"@ + decimal::digits(
            (utf8::byte_len(s) - utf8::byte_len(utf8::head_within(s, max))) as nat,
        ) + " bytes truncated]"@
    }
}

/// `v` with every string in it cut to `max` bytes.
pub open spec fn trimmed_value(v: JsonView, max: int) -> JsonView
    decreases v,
{
    match v {
        JsonView::Str(s) => JsonView::Str(cut_text(s, max)),
        JsonView::Arr(a) => JsonView::Arr(
            Seq::new(
                a.len(),
                |i: int|
                    if 0 <= i < a.len() {
                        trimmed_value(a[i], max)
                    } else {
                        JsonView::Null
                    },
            ),
        ),
        JsonView::Obj(m) => JsonView::Obj(
            Map::new(
                |k: Seq<char>| m.dom().contains(k),
                |k: Seq<char>|
                    if m.dom().finite() && m.dom().contains(k) {
                        trimmed_value(m[k], max)
                    } else {
                        JsonView::Null
                    },
            ),
        ),
        _ => v,
    }
}

/// `s` cut to `max` bytes.
fn cut_string(s: &str, max: usize) -> (r: String)
    ensures
        r@ == cut_text(s@, max as int),
{
    if utf8::len_of(s) <= max {
        s.to_string()
    } else {
        let head = utf8::cut(s, max);
        proof {
            utf8::head_within_is_the_longest_head(s@, max as int);
        }
        let dropped = utf8::len_of(s) - utf8::len_of(head.as_str());
        let mut out = head;
        out.append("…[+");
        out.append(decimal::unsigned_text(dropped as u64).as_str());
        out.append(" bytes truncated]");
        out
    }
}

/// A copy of `v` with every string in it cut to `max` bytes.
fn trimmed_copy(v: &Json, max: usize) -> (r: Json)
    ensures
        r@ == trimmed_value(v@, max as int),
    decreases v,
{
    match v {
        Json::Text(s) => Json::Text(cut_string(s.as_str(), max)),
        Json::Array(items) => {
            let mut out: Vec<Json> = Vec::new();
            let mut i: usize = 0;
            while i < items.len()
                invariant
                    i <= items@.len(),
                    out@.len() == i,
                    *v == Json::Array(*items),
                    forall|j: int|
                        0 <= j < i ==> (#[trigger] out@[j])@ == trimmed_value(
                            items@[j]@,
                            max as int,
                        ),
                decreases items@.len() - i,
            {
                assert(decreases_to!(v => v->Array_0));
                assert(decreases_to!(v->Array_0 => v->Array_0@));
                assert(decreases_to!(v->Array_0@ => v->Array_0@[i as int]));
                out.push(trimmed_copy(&items[i], max));
                i += 1;
            }
            let r = Json::Array(out);
            assert(r@->Arr_0 =~= trimmed_value(v@, max as int)->Arr_0);
            r
        },
        Json::Object(fields) => {
            let mut out: Vec<(String, Json)> = Vec::new();
            let mut i: usize = 0;
            assert(fields@.take(0) =~= Seq::<(String, Json)>::empty());
            assert(trimmed_value(JsonView::Obj(Map::empty()), max as int)->Obj_0 =~= Map::empty());
            while i < fields.len()
                invariant
                    i <= fields@.len(),
                    *v == Json::Object(*fields),
                    json::fields_view(out@) == trimmed_value(
                        JsonView::Obj(json::fields_view(fields@.take(i as int))),
                        max as int,
                    )->Obj_0,
                decreases fields@.len() - i,
            {
                let ghost before = out@;
                let ghost upto = fields@.take(i as int);
                assert(decreases_to!(v => v->Object_0));
                assert(decreases_to!(v->Object_0 => v->Object_0@));
                assert(decreases_to!(v->Object_0@ => v->Object_0@[i as int]));
                assert(decreases_to!(v->Object_0@[i as int] => v->Object_0@[i as int].1));
                out.push((fields[i].0.clone(), trimmed_copy(&fields[i].1, max)));
                assert(out@.drop_last() == before);
                assert(fields@.take(i + 1).drop_last() == upto);
                proof {
                    json::lemma_fields_are_finite(upto);
                    lemma_trimmed_insert(
                        json::fields_view(upto),
                        fields@[i as int].0@,
                        fields@[i as int].1@,
                        max as int,
                    );
                }
                i += 1;
            }
            assert(fields@.take(i as int) == fields@);
            Json::Object(out)
        },
        _ => v.copy(),
    }
}

/// Trimming goes field by field.
proof fn lemma_trimmed_insert(m: Map<Seq<char>, JsonView>, k: Seq<char>, x: JsonView, max: int)
    requires
        m.dom().finite(),
    ensures
        trimmed_value(JsonView::Obj(m.insert(k, x)), max)->Obj_0 == trimmed_value(
            JsonView::Obj(m),
            max,
        )->Obj_0.insert(k, trimmed_value(x, max)),
{
    let a = trimmed_value(JsonView::Obj(m.insert(k, x)), max)->Obj_0;
    let b = trimmed_value(JsonView::Obj(m), max)->Obj_0.insert(k, trimmed_value(x, max));
    assert(a =~= b);
}

/// Cuts every string in `v` to `max_bytes` bytes.
pub fn trim_value(v: &mut Json, max_bytes: usize)
    ensures
        final(v)@ == trimmed_value(old(v)@, max_bytes as int),
{
    let out = trimmed_copy(v, max_bytes);
    *v = out;
}

/// A response with its `result` trimmed.
pub open spec fn trimmed_response(v: JsonView, max: int) -> JsonView {
    match json::field(v, "result"@) {
        Some(x) => json::with_field(v, "result"@, trimmed_value(x, max)),
        None => v,
    }
}

/// A line with the `result` of the response in it trimmed. The budgets zero
/// and `usize::MAX` switch trimming off.
pub open spec fn trimmed_line(line: Seq<char>, max: usize) -> Seq<char> {
    if max == 0 || max == usize::MAX {
        line
    } else {
        match json::parsed_text(line) {
            Some(v) => json::rendered_text(trimmed_response(v, max as int)),
            None => line,
        }
    }
}

/// `v` with its `result` trimmed.
pub fn trim_rpc_response(v: &Json, max_bytes: usize) -> (r: Json)
    ensures
        r@ == trimmed_response(v@, max_bytes as int),
{
    let mut out = v.copy();
    if let Some(result) = v.get("result") {
        out.put("result", trimmed_copy(result, max_bytes));
    }
    out
}

/// The response line `json_line` with its `result` trimmed. A line that is
/// not JSON passes through unchanged. A reader of the line gets the trimmed
/// response, where that is plain.
pub fn trim_rpc_response_wire(json_line: &str, max_bytes: usize) -> (r: String)
    ensures
        r@ == trimmed_line(json_line@, max_bytes),
        0 < max_bytes < usize::MAX ==> match json::parsed_text(json_line@) {
            Some(v) => json::plain(
                trimmed_response(v, max_bytes as int),
                json::DEPTH_LIMIT as nat,
            ) ==> json::parsed_text(r@) == Some(trimmed_response(v, max_bytes as int)),
            None => true,
        },
{
    if max_bytes == 0 || max_bytes == usize::MAX {
        return json_line.to_string();
    }
    match json::parse(json_line) {
        Some(v) => json::render(&trim_rpc_response(&v, max_bytes)),
        None => json_line.to_string(),
    }
}

/// The tools that a `tools/list` response lists.
pub open spec fn tools_in(v: JsonView) -> Option<Seq<JsonView>> {
    match json::field(v, "result"@) {
        Some(x) => json::items_field(x, "tools"@),
        None => None,
    }
}

/// A `tools/list` response with other tools.
pub open spec fn with_tools(v: JsonView, tools: Seq<JsonView>) -> JsonView {
    match json::field(v, "result"@) {
        Some(x) => json::with_field(v, "result"@, json::with_field(x, "tools"@, JsonView::Arr(tools))),
        None => v,
    }
}

/// The name of a tool, empty where it has none.
pub open spec fn tool_name(tool: JsonView) -> Seq<char> {
    match json::str_field(tool, "name"@) {
        Some(s) => s,
        None => Seq::empty(),
    }
}

/// The tools that a profile advertises, in their order.
pub open spec fn advertised(tools: Seq<JsonView>, profile: Profile) -> Seq<JsonView> {
    tools.filter(|t: JsonView| advertises(profile, tool_name(t)))
}

/// A tool with its description stripped.
pub open spec fn stripped(tool: JsonView, strip: StripDescMode) -> JsonView {
    match strip {
        StripDescMode::Keep => tool,
        StripDescMode::ShortenTo(n) => match json::str_field(tool, "description"@) {
            Some(s) => json::with_field(
                tool,
                "description"@,
                JsonView::Str(utf8::head_within(s, n as int)),
            ),
            None => tool,
        },
        StripDescMode::All => json::with_field(tool, "description"@, JsonView::Str(Seq::empty())),
    }
}

/// Tools with their descriptions stripped.
pub open spec fn all_stripped(tools: Seq<JsonView>, strip: StripDescMode) -> Seq<JsonView> {
    Seq::new(tools.len(), |i: int| stripped(tools[i], strip))
}

/// A `tools/list` response with the tools that the profile advertises, their
/// descriptions stripped; `None` for a response of another shape.
pub open spec fn trimmed_tools_list(
    v: JsonView,
    profile: Profile,
    strip: StripDescMode,
) -> Option<JsonView> {
    match tools_in(v) {
        Some(tools) => Some(with_tools(v, all_stripped(advertised(tools, profile), strip))),
        None => None,
    }
}

/// A line with the tool list in it trimmed; any other line is kept.
pub open spec fn trimmed_tools_line(
    line: Seq<char>,
    profile: Profile,
    strip: StripDescMode,
) -> Seq<char> {
    if profile == Profile::Full && strip == StripDescMode::Keep {
        line
    } else {
        match json::parsed_text(line) {
            Some(v) => match trimmed_tools_list(v, profile, strip) {
                Some(w) => json::rendered_text(w),
                None => line,
            },
            None => line,
        }
    }
}

/// Filtering by a profile goes tool by tool.
pub proof fn lemma_advertised_push(tools: Seq<JsonView>, t: JsonView, profile: Profile)
    ensures
        advertised(tools.push(t), profile) == (if advertises(profile, tool_name(t)) {
            advertised(tools, profile).push(t)
        } else {
            advertised(tools, profile)
        }),
{
    reveal(Seq::filter);
    assert(tools.push(t).drop_last() =~= tools);
}

/// A copy of `tool` with its description stripped.
fn strip_tool(tool: &Json, strip: StripDescMode) -> (r: Json)
    ensures
        r@ == stripped(tool@, strip),
{
    let mut out = tool.copy();
    match strip {
        StripDescMode::Keep => {},
        StripDescMode::ShortenTo(n) => {
            if let Some(s) = tool.str_of("description") {
                out.put("description", Json::Text(utf8::cut(s, n)));
            }
        },
        StripDescMode::All => {
            out.put("description", Json::Text(String::new()));
        },
    }
    out
}

/// Puts `tools` in the place of the tools of a `tools/list` response.
pub fn replace_tools(v: &Json, tools: Vec<Json>) -> (r: Json)
    ensures
        r@ == with_tools(v@, json::json_views(tools@)),
{
    let mut out = v.copy();
    if let Some(result) = v.get("result") {
        let mut changed = result.copy();
        changed.put("tools", Json::array(tools));
        out.put("result", changed);
    }
    out
}

/// The tools that a `tools/list` response lists.
pub fn tools_of(v: &Json) -> (r: Option<&Vec<Json>>)
    ensures
        match r {
            Some(a) => tools_in(v@) == Some(json::json_views(a@)),
            None => tools_in(v@) is None,
        },
{
    match v.get("result") {
        Some(result) => result.items_of("tools"),
        None => None,
    }
}

/// The `tools/list` response `v` with the tools that the profile advertises,
/// their descriptions stripped; `None` where `v` has another shape.
pub fn trim_tools_list(v: &Json, profile: Profile, strip: StripDescMode) -> (r: Option<Json>)
    ensures
        match r {
            Some(w) => trimmed_tools_list(v@, profile, strip) == Some(w@),
            None => trimmed_tools_list(v@, profile, strip) is None,
        },
{
    match tools_of(v) {
        Some(tools) => {
            let ghost all = json::json_views(tools@);
            let mut out: Vec<Json> = Vec::new();
            let mut i: usize = 0;
            assert(all.take(0) =~= Seq::empty());
            assert(advertised(Seq::empty(), profile) =~= Seq::empty()) by {
                reveal(Seq::filter);
            }
            while i < tools.len()
                invariant
                    i <= tools@.len(),
                    all == json::json_views(tools@),
                    json::json_views(out@) =~= all_stripped(
                        advertised(all.take(i as int), profile),
                        strip,
                    ),
                decreases tools@.len() - i,
            {
                let tool = &tools[i];
                let name = tool.str_of("name").unwrap_or("");
                proof {
                    reveal_strlit("");
                    assert(name@ =~= tool_name(tool@));
                    assert(all.take(i + 1) =~= all.take(i as int).push(tool@));
                    lemma_advertised_push(all.take(i as int), tool@, profile);
                }
                let ghost kept = advertised(all.take(i as int), profile);
                let ghost before = out@;
                if profile.allows(name) {
                    out.push(strip_tool(tool, strip));
                    assert(json::json_views(out@) =~= json::json_views(before).push(
                        stripped(tool@, strip),
                    ));
                    assert(all_stripped(kept.push(tool@), strip) =~= all_stripped(kept, strip).push(
                        stripped(tool@, strip),
                    ));
                }
                i += 1;
            }
            assert(all.take(i as int) =~= all);
            Some(replace_tools(v, out))
        },
        None => None,
    }
}

/// A profile that advertises everything, with no stripping, keeps a tool list.
proof fn lemma_full_list_is_kept(v: JsonView)
    ensures
        trimmed_tools_list(v, Profile::Full, StripDescMode::Keep) matches Some(w) ==> w == v,
{
    if let Some(tools) = tools_in(v) {
        lemma_full_keeps(tools);
        assert(all_stripped(tools, StripDescMode::Keep) =~= tools);
        let result = json::field(v, "result"@)->0;
        assert(result->Obj_0.insert("tools"@, JsonView::Arr(tools)) =~= result->Obj_0);
        assert(v->Obj_0.insert("result"@, result) =~= v->Obj_0);
    }
}

/// A profile that advertises everything filters nothing.
proof fn lemma_full_keeps(tools: Seq<JsonView>)
    ensures
        advertised(tools, Profile::Full) == tools,
    decreases tools.len(),
{
    reveal(Seq::filter);
    if tools.len() > 0 {
        lemma_full_keeps(tools.drop_last());
        lemma_advertised_push(tools.drop_last(), tools.last(), Profile::Full);
        assert(tools.drop_last().push(tools.last()) =~= tools);
    }
}

/// The `tools/list` line `json_line` with the tools that the profile
/// advertises, their descriptions stripped. Any other line passes through
/// unchanged. A reader of the line gets the trimmed list, where that is plain.
pub fn trim_tools_list_wire(json_line: &str, profile: Profile, strip: StripDescMode) -> (r: String)
    ensures
        r@ == trimmed_tools_line(json_line@, profile, strip),
        match json::parsed_text(json_line@) {
            Some(v) => match trimmed_tools_list(v, profile, strip) {
                Some(w) => json::plain(w, json::DEPTH_LIMIT as nat) ==> json::parsed_text(r@)
                    == Some(w),
                None => true,
            },
            None => true,
        },
{
    if profile == Profile::Full && strip == StripDescMode::Keep {
        proof {
            if let Some(v) = json::parsed_text(json_line@) {
                lemma_full_list_is_kept(v);
            }
        }
        return json_line.to_string();
    }
    match json::parse(json_line) {
        Some(v) => match trim_tools_list(&v, profile, strip) {
            Some(w) => json::render(&w),
            None => json_line.to_string(),
        },
        None => json_line.to_string(),
    }
}

/// A text that fits is kept. A longer one keeps its longest head that fits,
/// and the marker counts exactly the bytes that the head leaves out.
pub proof fn cut_text_accounts_for_every_byte(s: Seq<char>, max: int)
    requires
        0 <= max,
    ensures
        utf8::byte_len(s) <= max ==> cut_text(s, max) == s,
        utf8::byte_len(s) > max ==> {
            let head = utf8::head_within(s, max);
            let dropped = (utf8::byte_len(s) - utf8::byte_len(head)) as nat;
            &&& text::begins_with(s, head)
            &&& utf8::byte_len(head) <= max
            &&& utf8::byte_len(s.take((head.len() + 1) as int)) > max
            &&& utf8::byte_len(head) + dropped == utf8::byte_len(s)
            &&& cut_text(s, max) == head + "…[+"@ + decimal::digits(dropped) + " bytes truncated]"@
        },
{
    utf8::head_within_is_the_longest_head(s, max);
    utf8::head_within_of_fitting_text(s, max);
    let head = utf8::head_within(s, max);
    if head.len() == s.len() {
        assert(head =~= s);
    }
}

/// Whether every string in `v` takes at most `max` bytes.
pub open spec fn strings_within(v: JsonView, max: int) -> bool
    decreases v,
{
    match v {
        JsonView::Str(s) => utf8::byte_len(s) <= max,
        JsonView::Arr(a) => forall|i: int|
            0 <= i < a.len() ==> (0 <= i < a.len() && strings_within(#[trigger] a[i], max)),
        JsonView::Obj(m) => m.dom().finite() && forall|k: Seq<char>|
            m.dom().contains(k) ==> (m.dom().finite() && m.dom().contains(k) && strings_within(
                #[trigger] m[k],
                max,
            )),
        _ => true,
    }
}

/// A value whose strings all fit is left as it is.
pub proof fn short_strings_are_kept(v: JsonView, max: int)
    requires
        strings_within(v, max),
    ensures
        trimmed_value(v, max) == v,
    decreases v,
{
    match v {
        JsonView::Arr(a) => {
            assert forall|i: int| 0 <= i < a.len() implies trimmed_value(#[trigger] a[i], max)
                == a[i] by {
                short_strings_are_kept(a[i], max);
            }
            assert(trimmed_value(v, max)->Arr_0 =~= a);
        },
        JsonView::Obj(m) => {
            assert forall|k: Seq<char>| m.dom().contains(k) implies trimmed_value(
                #[trigger] m[k],
                max,
            ) == m[k] by {
                short_strings_are_kept(m[k], max);
            }
            assert(trimmed_value(v, max)->Obj_0 =~= m);
        },
        _ => {},
    }
}

/// A profile's name names that profile, and no other name does.
pub proof fn profile_names_read_back(p: Profile, s: Seq<char>)
    ensures
        profile_named(profile_name(p)) == Some(p),
        profile_named(s) == Some(p) ==> s == profile_name(p),
{
    reveal_strlit("minimal");
    reveal_strlit("standard");
    reveal_strlit("full");
    assert("minimal"@[0] != "standard"@[0]);
    assert("minimal"@[0] != "full"@[0]);
    assert("standard"@[0] != "full"@[0]);
}

/// What the minimal profile advertises the standard one does too, and the
/// full profile advertises everything.
pub proof fn profiles_widen(name: Seq<char>)
    ensures
        advertises(Profile::Minimal, name) ==> advertises(Profile::Standard, name),
        advertises(Profile::Full, name),
{
    let w = wrapper_names();
    let m = minimal_names();
    assert(w[1] == m[0] && w[2] == m[1] && w[3] == m[2] && w[4] == m[3] && w[6] == m[4]);
    assert(read_only_names()[0] == m[5]);
    if m.contains(name) {
        let i = choose|i: int| 0 <= i < m.len() && m[i] == name;
        assert(0 <= i < 6);
    }
}

/// The standard profile advertises every wrapper.
pub proof fn standard_advertises_every_wrapper(name: Seq<char>)
    requires
        wrapper_names().contains(name),
    ensures
        advertises(Profile::Standard, name),
{
}

/// Stripping changes the description alone, and leaves it within the budget.
pub proof fn stripping_changes_the_description_alone(
    tool: JsonView,
    strip: StripDescMode,
    key: Seq<char>,
)
    ensures
        key != "description"@ ==> json::field(stripped(tool, strip), key) == json::field(tool, key),
        tool_name(stripped(tool, strip)) == tool_name(tool),
        strip matches StripDescMode::ShortenTo(n) ==> (json::str_field(
            stripped(tool, strip),
            "description"@,
        ) matches Some(s) ==> utf8::byte_len(s) <= n),
        strip == StripDescMode::All && tool is Obj ==> json::str_field(
            stripped(tool, strip),
            "description"@,
        ) == Some(Seq::<char>::empty()),
{
    reveal_strlit("description");
    reveal_strlit("name");
    assert("description"@.len() != "name"@.len());
    if let StripDescMode::ShortenTo(n) = strip {
        if let Some(s) = json::str_field(tool, "description"@) {
            utf8::head_within_is_the_longest_head(s, n as int);
        }
    }
}

/// Stripping twice is stripping once.
pub proof fn stripping_is_idempotent(tool: JsonView, strip: StripDescMode)
    ensures
        stripped(stripped(tool, strip), strip) == stripped(tool, strip),
{
    let once = stripped(tool, strip);
    match strip {
        StripDescMode::Keep => {},
        StripDescMode::ShortenTo(n) => {
            if let Some(s) = json::str_field(tool, "description"@) {
                let h = utf8::head_within(s, n as int);
                utf8::head_within_is_the_longest_head(s, n as int);
                utf8::head_within_of_fitting_text(h, n as int);
                assert(json::str_field(once, "description"@) == Some(h));
                assert(stripped(once, strip)->Obj_0 =~= once->Obj_0);
            }
        },
        StripDescMode::All => {
            if tool is Obj {
                assert(stripped(once, strip)->Obj_0 =~= once->Obj_0);
            }
        },
    }
}

/// Every tool of a filtered list is advertised and comes from the list.
pub proof fn filtered_tools_are_advertised(tools: Seq<JsonView>, profile: Profile)
    ensures
        forall|i: int|
            #![trigger advertised(tools, profile)[i]]
            0 <= i < advertised(tools, profile).len() ==> advertises(
                profile,
                tool_name(advertised(tools, profile)[i]),
            ) && tools.contains(advertised(tools, profile)[i]),
    decreases tools.len(),
{
    if tools.len() == 0 {
        reveal(Seq::filter);
    } else {
        let rest = tools.drop_last();
        filtered_tools_are_advertised(rest, profile);
        lemma_advertised_push(rest, tools.last(), profile);
        assert(rest.push(tools.last()) =~= tools);
        let kept = advertised(tools, profile);
        assert forall|i: int| 0 <= i < kept.len() implies advertises(
            profile,
            tool_name(#[trigger] kept[i]),
        ) && tools.contains(kept[i]) by {
            if i < advertised(rest, profile).len() {
                assert(kept[i] == advertised(rest, profile)[i]);
                let j = choose|j: int| 0 <= j < rest.len() && rest[j] == kept[i];
                assert(tools[j] == kept[i]);
            } else {
                assert(tools[tools.len() - 1] == kept[i]);
            }
        }
    }
}

/// A list whose tools are all advertised is kept whole.
proof fn lemma_advertised_all(tools: Seq<JsonView>, profile: Profile)
    requires
        forall|i: int|
            0 <= i < tools.len() ==> advertises(profile, tool_name(#[trigger] tools[i])),
    ensures
        advertised(tools, profile) == tools,
    decreases tools.len(),
{
    if tools.len() == 0 {
        reveal(Seq::filter);
        assert(advertised(tools, profile) =~= tools);
    } else {
        let rest = tools.drop_last();
        assert forall|i: int| 0 <= i < rest.len() implies advertises(
            profile,
            tool_name(#[trigger] rest[i]),
        ) by {
            assert(rest[i] == tools[i]);
        }
        lemma_advertised_all(rest, profile);
        lemma_advertised_push(rest, tools.last(), profile);
        assert(tools[tools.len() - 1] == tools.last());
        assert(rest.push(tools.last()) =~= tools);
    }
}

/// The tools that replace those of a list are the tools of the result.
pub proof fn replaced_tools_are_listed(v: JsonView, tools: Seq<JsonView>, others: Seq<JsonView>)
    requires
        tools_in(v) is Some,
    ensures
        tools_in(with_tools(v, tools)) == Some(tools),
        with_tools(with_tools(v, tools), others) == with_tools(v, others),
{
    let once = with_tools(v, tools);
    let x = json::field(v, "result"@)->0;
    let y = json::with_field(x, "tools"@, JsonView::Arr(tools));
    assert(json::field(once, "result"@) == Some(y));
    assert(json::with_field(y, "tools"@, JsonView::Arr(others))->Obj_0 =~= json::with_field(
        x,
        "tools"@,
        JsonView::Arr(others),
    )->Obj_0);
    assert(with_tools(once, others)->Obj_0 =~= with_tools(v, others)->Obj_0);
}

/// Trimming a trimmed tool list changes nothing.
pub proof fn tool_list_trimming_is_idempotent(v: JsonView, profile: Profile, strip: StripDescMode)
    ensures
        match trimmed_tools_list(v, profile, strip) {
            Some(w) => trimmed_tools_list(w, profile, strip) == Some(w),
            None => true,
        },
{
    if let Some(tools) = tools_in(v) {
        let kept = advertised(tools, profile);
        let out = all_stripped(kept, strip);
        filtered_tools_are_advertised(tools, profile);
        assert forall|i: int| 0 <= i < out.len() implies advertises(
            profile,
            tool_name(#[trigger] out[i]),
        ) && stripped(out[i], strip) == out[i] by {
            assert(out[i] == stripped(kept[i], strip));
            stripping_changes_the_description_alone(kept[i], strip, "name"@);
            stripping_is_idempotent(kept[i], strip);
        }
        lemma_advertised_all(out, profile);
        assert(all_stripped(out, strip) =~= out);
        replaced_tools_are_listed(v, out, out);
    }
}

} // verus!
