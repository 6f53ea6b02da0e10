//! The wrapper tools: their table, their place in the advertised tool list,
//! the single-tool gateway, and the decision of who answers a call.

use vstd::prelude::*;
use vstd::string::*;

use crate::cache;
use crate::cache::WrapperCache;
use crate::json;
use crate::json::Json;
use crate::json::JsonView;
use crate::mcp_trim;
use crate::mcp_trim::Profile;
use crate::schemas;
use crate::text;

verus! {

/// A wrapper tool.
#[derive(Debug, Clone, Copy, PartialEq, Eq, Structural)]
pub enum PluginTool {
    Ask,
    RepoSummary,
    OutlineFirst,
    DocDrill,
    SemanticFilter,
    GitSummary,
    SymbolCard,
}

/// The wrapper tools in the order in which they are advertised.
pub open spec fn tool_order() -> Seq<PluginTool> {
    seq![
        PluginTool::Ask,
        PluginTool::RepoSummary,
        PluginTool::OutlineFirst,
        PluginTool::DocDrill,
        PluginTool::SemanticFilter,
        PluginTool::GitSummary,
        PluginTool::SymbolCard,
    ]
}

/// The name of a wrapper tool.
pub open spec fn wire_name(t: PluginTool) -> Seq<char> {
    match t {
        PluginTool::Ask => "helios_ask"@,
        PluginTool::RepoSummary => "helios_repo_summary"@,
        PluginTool::OutlineFirst => "helios_outline_first"@,
        PluginTool::DocDrill => "helios_doc_drill"@,
        PluginTool::SemanticFilter => "helios_semantic_filter"@,
        PluginTool::GitSummary => "helios_git_summary"@,
        PluginTool::SymbolCard => "helios_symbol_card"@,
    }
}

/// The description of a wrapper tool.
pub open spec fn about(t: PluginTool) -> Seq<char> {
    match t {
        PluginTool::Ask =>
            "Question router: returns a compact answer-card with evidence."@,
        PluginTool::RepoSummary => "PageRank-ranked file index w/ top symbols."@,
        PluginTool::OutlineFirst => "Doc headings + 1-line summaries (no chunk bodies)."@,
        PluginTool::DocDrill => "Expand one DocSection into its child chunks."@,
        PluginTool::SemanticFilter => "Filtered KNN: semantic + lang/kind/path predicates."@,
        PluginTool::GitSummary =>
            "Structural diff (added/removed/moved/sig-changed) between two commits."@,
        PluginTool::SymbolCard =>
            "Symbol card: sig + doc + ≤5 callers + ≤5 callees in one call."@,
    }
}

/// The input schema of a wrapper tool.
pub open spec fn input(t: PluginTool) -> JsonView {
    match t {
        PluginTool::Ask => schemas::ask_input(),
        PluginTool::RepoSummary => schemas::repo_summary_input(),
        PluginTool::OutlineFirst => schemas::outline_first_input(),
        PluginTool::DocDrill => schemas::doc_drill_input(),
        PluginTool::SemanticFilter => schemas::semantic_filter_input(),
        PluginTool::GitSummary => schemas::git_summary_input(),
        PluginTool::SymbolCard => schemas::symbol_card_input(),
    }
}

/// The wrapper tool with a given name.
pub open spec fn tool_named(name: Seq<char>) -> Option<PluginTool> {
    if name == wire_name(PluginTool::Ask) {
        Some(PluginTool::Ask)
    } else if name == wire_name(PluginTool::RepoSummary) {
        Some(PluginTool::RepoSummary)
    } else if name == wire_name(PluginTool::OutlineFirst) {
        Some(PluginTool::OutlineFirst)
    } else if name == wire_name(PluginTool::DocDrill) {
        Some(PluginTool::DocDrill)
    } else if name == wire_name(PluginTool::SemanticFilter) {
        Some(PluginTool::SemanticFilter)
    } else if name == wire_name(PluginTool::GitSummary) {
        Some(PluginTool::GitSummary)
    } else if name == wire_name(PluginTool::SymbolCard) {
        Some(PluginTool::SymbolCard)
    } else {
        None
    }
}

/// The descriptor of a wrapper tool.
pub struct ToolDesc {
    pub name: &'static str,
    pub description: &'static str,
    pub tool: PluginTool,
}

impl ToolDesc {
    /// Whether name and description are those of the tool.
    pub open spec fn describes(self, t: PluginTool) -> bool {
        &&& self.tool == t
        &&& self.name@ == wire_name(t)
        &&& self.description@ == about(t)
    }

    /// The input schema of the tool.
    pub fn input_schema(&self) -> (r: Json)
        ensures
            r@ == input(self.tool),
    {
        match self.tool {
            PluginTool::Ask => schemas::ask_schema(),
            PluginTool::RepoSummary => schemas::repo_summary_schema(),
            PluginTool::OutlineFirst => schemas::outline_first_schema(),
            PluginTool::DocDrill => schemas::doc_drill_schema(),
            PluginTool::SemanticFilter => schemas::semantic_filter_schema(),
            PluginTool::GitSummary => schemas::git_summary_schema(),
            PluginTool::SymbolCard => schemas::symbol_card_schema(),
        }
    }
}

/// The descriptor of the tool `t`.
pub fn descriptor(t: PluginTool) -> (r: ToolDesc)
    ensures
        r.describes(t),
{
    match t {
        PluginTool::Ask => ToolDesc {
            name: "helios_ask",
            description: "Question router: returns a compact answer-card with evidence.",
            tool: t,
        },
        PluginTool::RepoSummary => ToolDesc {
            name: "helios_repo_summary",
            description: "PageRank-ranked file index w/ top symbols.",
            tool: t,
        },
        PluginTool::OutlineFirst => ToolDesc {
            name: "helios_outline_first",
            description: "Doc headings + 1-line summaries (no chunk bodies).",
            tool: t,
        },
        PluginTool::DocDrill => ToolDesc {
            name: "helios_doc_drill",
            description: "Expand one DocSection into its child chunks.",
            tool: t,
        },
        PluginTool::SemanticFilter => ToolDesc {
            name: "helios_semantic_filter",
            description: "Filtered KNN: semantic + lang/kind/path predicates.",
            tool: t,
        },
        PluginTool::GitSummary => ToolDesc {
            name: "helios_git_summary",
            description: "Structural diff (added/removed/moved/sig-changed) between two commits.",
            tool: t,
        },
        PluginTool::SymbolCard => ToolDesc {
            name: "helios_symbol_card",
            description: "Symbol card: sig + doc + ≤5 callers + ≤5 callees in one call.",
            tool: t,
        },
    }
}

/// The descriptors of the wrapper tools, in the order of `wrapper_tool_names`.
pub fn plugin_tools() -> (r: Vec<ToolDesc>)
    ensures
        r@.len() == tool_order().len(),
        forall|i: int| 0 <= i < r@.len() ==> (#[trigger] r@[i]).describes(tool_order()[i]),
{
    let mut out: Vec<ToolDesc> = Vec::new();
    out.push(descriptor(PluginTool::Ask));
    out.push(descriptor(PluginTool::RepoSummary));
    out.push(descriptor(PluginTool::OutlineFirst));
    out.push(descriptor(PluginTool::DocDrill));
    out.push(descriptor(PluginTool::SemanticFilter));
    out.push(descriptor(PluginTool::GitSummary));
    out.push(descriptor(PluginTool::SymbolCard));
    out
}

/// The names in the tool table are the wrapper names, in the same order.
pub proof fn tool_table_matches_wrapper_names()
    ensures
        Seq::new(tool_order().len(), |i: int| wire_name(tool_order()[i]))
            == mcp_trim::wrapper_names(),
{
    assert(Seq::new(tool_order().len(), |i: int| wire_name(tool_order()[i]))
        =~= mcp_trim::wrapper_names());
}

/// A name is that of a wrapper exactly where the table has a tool of that name.
pub proof fn named_tools_are_the_wrappers(name: Seq<char>)
    ensures
        mcp_trim::wrapper_names().contains(name) <==> tool_named(name) is Some,
        tool_named(name) matches Some(t) ==> wire_name(t) == name,
{
    let w = mcp_trim::wrapper_names();
    assert(w[0] == wire_name(PluginTool::Ask));
    assert(w[1] == wire_name(PluginTool::RepoSummary));
    assert(w[2] == wire_name(PluginTool::OutlineFirst));
    assert(w[3] == wire_name(PluginTool::DocDrill));
    assert(w[4] == wire_name(PluginTool::SemanticFilter));
    assert(w[5] == wire_name(PluginTool::GitSummary));
    assert(w[6] == wire_name(PluginTool::SymbolCard));
    if w.contains(name) {
        let i = choose|i: int| 0 <= i < w.len() && w[i] == name;
        assert(0 <= i < 7);
    }
}

/// The wrapper tool of that name.
pub fn find_tool(name: &str) -> (r: Option<PluginTool>)
    ensures
        r == tool_named(name@),
{
    if text::same(name, "helios_ask") {
        Some(PluginTool::Ask)
    } else if text::same(name, "helios_repo_summary") {
        Some(PluginTool::RepoSummary)
    } else if text::same(name, "helios_outline_first") {
        Some(PluginTool::OutlineFirst)
    } else if text::same(name, "helios_doc_drill") {
        Some(PluginTool::DocDrill)
    } else if text::same(name, "helios_semantic_filter") {
        Some(PluginTool::SemanticFilter)
    } else if text::same(name, "helios_git_summary") {
        Some(PluginTool::GitSummary)
    } else if text::same(name, "helios_symbol_card") {
        Some(PluginTool::SymbolCard)
    } else {
        None
    }
}

/// Whether `name` is the name of a wrapper tool.
pub fn is_plugin_tool(name: &str) -> (r: bool)
    ensures
        r == mcp_trim::wrapper_names().contains(name@),
{
    text::among(name, &mcp_trim::wrapper_tool_names())
}

/// The entry of a wrapper tool in a tool list.
pub open spec fn tool_entry(t: PluginTool) -> JsonView {
    JsonView::Obj(
        map![
            "name"@ => JsonView::Str(wire_name(t)),
            "description"@ => JsonView::Str(about(t)),
            "inputSchema"@ => input(t),
        ],
    )
}

/// Whether a tool of that name is listed.
pub open spec fn lists(tools: Seq<JsonView>, name: Seq<char>) -> bool {
    exists|i: int| 0 <= i < tools.len() && json::str_field(#[trigger] tools[i], "name"@) == Some(name)
}

/// Whether a wrapper tool is advertised and not yet listed.
pub open spec fn is_missing(t: PluginTool, tools: Seq<JsonView>, profile: Profile) -> bool {
    mcp_trim::advertises(profile, wire_name(t)) && !lists(tools, wire_name(t))
}

/// The entries of those of `candidates` that are missing from a list.
pub open spec fn missing_entries(
    candidates: Seq<PluginTool>,
    tools: Seq<JsonView>,
    profile: Profile,
) -> Seq<JsonView>
    decreases candidates.len(),
{
    if candidates.len() == 0 {
        Seq::empty()
    } else {
        let before = missing_entries(candidates.drop_last(), tools, profile);
        if is_missing(candidates.last(), tools, profile) {
            before.push(tool_entry(candidates.last()))
        } else {
            before
        }
    }
}

/// A `tools/list` response with the missing wrapper tools after its own;
/// `None` for a response of another shape.
pub open spec fn injected(v: JsonView, profile: Profile) -> Option<JsonView> {
    match mcp_trim::tools_in(v) {
        Some(tools) => Some(
            mcp_trim::with_tools(v, tools + missing_entries(tool_order(), tools, profile)),
        ),
        None => None,
    }
}

/// A line with the wrapper tools in the tool list in it; any other line is kept.
pub open spec fn injected_line(line: Seq<char>, profile: Profile) -> Seq<char> {
    match json::parsed_text(line) {
        Some(v) => match injected(v, profile) {
            Some(w) => json::rendered_text(w),
            None => line,
        },
        None => line,
    }
}

/// Whether a tool of that name is listed.
fn is_listed(tools: &Vec<Json>, name: &str) -> (r: bool)
    ensures
        r == lists(json::json_views(tools@), name@),
{
    let ghost all = json::json_views(tools@);
    let mut i: usize = 0;
    while i < tools.len()
        invariant
            i <= tools@.len(),
            all == json::json_views(tools@),
            forall|j: int| 0 <= j < i ==> json::str_field(#[trigger] all[j], "name"@) != Some(name@),
        decreases tools@.len() - i,
    {
        assert(all[i as int] == tools@[i as int]@);
        if let Some(s) = tools[i].str_of("name") {
            if text::same(s, name) {
                return true;
            }
        }
        i += 1;
    }
    false
}

/// The entry of the tool `desc.tool` in a tool list.
fn entry_of(desc: &ToolDesc) -> (r: Json)
    requires
        desc.describes(desc.tool),
    ensures
        r@ == tool_entry(desc.tool),
{
    Json::object().with("name", Json::text(desc.name)).with(
        "description",
        Json::text(desc.description),
    ).with("inputSchema", desc.input_schema())
}

/// The `tools/list` response `v` with the advertised wrapper tools that it
/// does not list yet after its own; `None` where `v` has another shape.
pub fn inject_tools(v: &Json, profile: Profile) -> (r: Option<Json>)
    ensures
        match r {
            Some(w) => injected(v@, profile) == Some(w@),
            None => injected(v@, profile) is None,
        },
{
    match mcp_trim::tools_of(v) {
        Some(tools) => {
            let ghost own = json::json_views(tools@);
            let mut out = json::copies(tools);
            let all = plugin_tools();
            let mut i: usize = 0;
            assert(tool_order().take(0) =~= Seq::empty());
            assert(json::json_views(out@) =~= own + missing_entries(
                tool_order().take(0),
                own,
                profile,
            ));
            while i < all.len()
                invariant
                    i <= all@.len(),
                    all@.len() == tool_order().len(),
                    forall|j: int|
                        0 <= j < all@.len() ==> (#[trigger] all@[j]).describes(tool_order()[j]),
                    own == json::json_views(tools@),
                    json::json_views(out@) == own + missing_entries(
                        tool_order().take(i as int),
                        own,
                        profile,
                    ),
                decreases all@.len() - i,
            {
                let desc = &all[i];
                let ghost before = out@;
                let ghost added = missing_entries(tool_order().take(i as int), own, profile);
                assert(desc.describes(tool_order()[i as int]));
                assert(tool_order().take(i + 1).drop_last() =~= tool_order().take(i as int));
                if profile.allows(desc.name) && !is_listed(tools, desc.name) {
                    out.push(entry_of(desc));
                    assert(json::json_views(out@) =~= json::json_views(before).push(
                        tool_entry(desc.tool),
                    ));
                    assert(own + added.push(tool_entry(desc.tool)) =~= (own + added).push(
                        tool_entry(desc.tool),
                    ));
                }
                i += 1;
            }
            assert(tool_order().take(i as int) =~= tool_order());
            Some(mcp_trim::replace_tools(v, out))
        },
        None => None,
    }
}

/// The `tools/list` line `json_line` with the advertised wrapper tools that
/// it does not list yet. Any other line passes through unchanged. A reader of
/// the line gets the list with them, and injecting again changes nothing,
/// where the list is plain.
pub fn inject_into_tools_list(json_line: &str, profile: Profile) -> (r: String)
    ensures
        r@ == injected_line(json_line@, profile),
        match json::parsed_text(json_line@) {
            Some(v) => match injected(v, profile) {
                Some(w) => json::plain(w, json::DEPTH_LIMIT as nat) ==> json::parsed_text(r@)
                    == Some(w) && injected_line(r@, profile) == r@,
                None => injected_line(r@, profile) == r@,
            },
            None => injected_line(r@, profile) == r@,
        },
{
    match json::parse(json_line) {
        Some(v) => match inject_tools(&v, profile) {
            Some(w) => {
                proof {
                    injection_is_idempotent(v@, profile);
                }
                json::render(&w)
            },
            None => json_line.to_string(),
        },
        None => json_line.to_string(),
    }
}

/// A list stays listed when more tools follow.
proof fn lemma_lists_more(tools: Seq<JsonView>, more: Seq<JsonView>, name: Seq<char>)
    ensures
        lists(tools, name) ==> lists(tools + more, name),
        lists(more, name) ==> lists(tools + more, name),
{
    if lists(tools, name) {
        let i = choose|i: int|
            0 <= i < tools.len() && json::str_field(#[trigger] tools[i], "name"@) == Some(name);
        assert((tools + more)[i] == tools[i]);
    }
    if lists(more, name) {
        let i = choose|i: int|
            0 <= i < more.len() && json::str_field(#[trigger] more[i], "name"@) == Some(name);
        assert((tools + more)[tools.len() + i] == more[i]);
    }
}

/// The entry of a tool carries its name.
proof fn lemma_entry_name(t: PluginTool)
    ensures
        json::str_field(tool_entry(t), "name"@) == Some(wire_name(t)),
{
    reveal_strlit("name");
    reveal_strlit("description");
    reveal_strlit("inputSchema");
    assert("name"@.len() == 4 && "description"@.len() == 11 && "inputSchema"@.len() == 11);
}

/// Every advertised candidate is listed once the missing entries follow.
proof fn lemma_candidates_listed(
    candidates: Seq<PluginTool>,
    tools: Seq<JsonView>,
    profile: Profile,
)
    ensures
        forall|i: int|
            #![trigger candidates[i]]
            0 <= i < candidates.len() && mcp_trim::advertises(profile, wire_name(candidates[i]))
                ==> lists(
                tools + missing_entries(candidates, tools, profile),
                wire_name(candidates[i]),
            ),
    decreases candidates.len(),
{
    if candidates.len() > 0 {
        let rest = candidates.drop_last();
        let t = candidates.last();
        let before = missing_entries(rest, tools, profile);
        let all = missing_entries(candidates, tools, profile);
        lemma_candidates_listed(rest, tools, profile);
        lemma_entry_name(t);
        assert forall|i: int|
            #![trigger candidates[i]]
            0 <= i < candidates.len() && mcp_trim::advertises(
                profile,
                wire_name(candidates[i]),
            ) implies lists(tools + all, wire_name(candidates[i])) by {
            if i < rest.len() {
                assert(rest[i] == candidates[i]);
                if all != before {
                    lemma_lists_more(
                        tools + before,
                        seq![tool_entry(t)],
                        wire_name(candidates[i]),
                    );
                    assert((tools + before) + seq![tool_entry(t)] =~= tools + all);
                }
            } else {
                assert(candidates[i] == t);
                if is_missing(t, tools, profile) {
                    assert((tools + all)[(tools.len() + before.len()) as int] == tool_entry(t));
                } else {
                    lemma_lists_more(tools, all, wire_name(t));
                }
            }
        }
    }
}

/// Candidates that are all listed or not advertised leave nothing missing.
proof fn lemma_nothing_missing(candidates: Seq<PluginTool>, tools: Seq<JsonView>, profile: Profile)
    requires
        forall|i: int|
            #![trigger candidates[i]]
            0 <= i < candidates.len() && mcp_trim::advertises(profile, wire_name(candidates[i]))
                ==> lists(tools, wire_name(candidates[i])),
    ensures
        missing_entries(candidates, tools, profile) == Seq::<JsonView>::empty(),
    decreases candidates.len(),
{
    if candidates.len() > 0 {
        let rest = candidates.drop_last();
        assert forall|i: int|
            #![trigger rest[i]]
            0 <= i < rest.len() && mcp_trim::advertises(profile, wire_name(rest[i])) implies lists(
            tools,
            wire_name(rest[i]),
        ) by {
            assert(rest[i] == candidates[i]);
        }
        lemma_nothing_missing(rest, tools, profile);
        assert(candidates[candidates.len() - 1] == candidates.last());
    }
}

/// Injecting twice is injecting once.
pub proof fn injection_is_idempotent(v: JsonView, profile: Profile)
    ensures
        match injected(v, profile) {
            Some(w) => injected(w, profile) == Some(w),
            None => true,
        },
{
    if let Some(tools) = mcp_trim::tools_in(v) {
        let all = tools + missing_entries(tool_order(), tools, profile);
        lemma_candidates_listed(tool_order(), tools, profile);
        lemma_nothing_missing(tool_order(), all, profile);
        assert(all + Seq::<JsonView>::empty() =~= all);
        mcp_trim::replaced_tools_are_listed(v, all, all);
    }
}

/// Injection keeps the tools of the response, first and in their order, and
/// lists every wrapper that the profile advertises.
pub proof fn injection_keeps_tools_and_lists_wrappers(v: JsonView, profile: Profile, t: PluginTool)
    ensures
        match (mcp_trim::tools_in(v), injected(v, profile)) {
            (Some(tools), Some(w)) => mcp_trim::tools_in(w) matches Some(all) && tools.len()
                <= all.len() && all.take(tools.len() as int) == tools && (mcp_trim::advertises(
                profile,
                wire_name(t),
            ) ==> lists(all, wire_name(t))),
            (None, None) => true,
            _ => false,
        },
{
    if let Some(tools) = mcp_trim::tools_in(v) {
        let all = tools + missing_entries(tool_order(), tools, profile);
        lemma_candidates_listed(tool_order(), tools, profile);
        mcp_trim::replaced_tools_are_listed(v, all, all);
        assert(all.take(tools.len() as int) =~= tools);
        let order = tool_order();
        assert(order[0] == PluginTool::Ask && order[1] == PluginTool::RepoSummary && order[2]
            == PluginTool::OutlineFirst && order[3] == PluginTool::DocDrill && order[4]
            == PluginTool::SemanticFilter && order[5] == PluginTool::GitSummary && order[6]
            == PluginTool::SymbolCard);
    }
}

/// The name of the single tool that stands for all of them.
pub const MEGA_TOOL_NAME: &'static str = "helios";

/// The action of a wrapper tool: its name without the leading `helios_`.
pub open spec fn action_name(t: PluginTool) -> Seq<char> {
    text::without_prefixes(wire_name(t), "helios_"@)
}

/// The actions of the wrapper tools, in the order of the table.
pub open spec fn action_names() -> Seq<Seq<char>> {
    Seq::new(tool_order().len(), |i: int| action_name(tool_order()[i]))
}

/// The actions of the wrapper tools, in the order of the table.
pub fn plugin_action_names() -> (r: Vec<String>)
    ensures
        text::views(r@) == action_names(),
{
    let all = plugin_tools();
    let mut out: Vec<String> = Vec::new();
    let mut i: usize = 0;
    while i < all.len()
        invariant
            i <= all@.len(),
            all@.len() == tool_order().len(),
            forall|j: int| 0 <= j < all@.len() ==> (#[trigger] all@[j]).describes(tool_order()[j]),
            out@.len() == i,
            forall|j: int| 0 <= j < i ==> (#[trigger] out@[j])@ == action_name(tool_order()[j]),
        decreases all@.len() - i,
    {
        assert(all@[i as int].describes(tool_order()[i as int]));
        out.push(text::strip_prefixes(all[i].name, "helios_"));
        i += 1;
    }
    assert(text::views(out@) =~= action_names());
    out
}

/// The description of the single tool.
pub open spec fn mega_description() -> Seq<char> {
    "One-tool gateway to the heliosdb-codekb MCP. Call with {action: \"<name>\", args: {...}}. Available plugin actions: "@
        + text::joined(action_names(), ", "@)
        + "; plus passthrough to any engine tool by short name (e.g. action=\"lsp_definition\", \"graphrag_search\", \"query\", \"ast_diff\"). Use action=\"list_actions\" to fetch the full per-action arg schema catalogue on demand."@
}

/// The descriptor of the single tool.
pub open spec fn mega_descriptor() -> JsonView {
    JsonView::Obj(
        map![
            "name"@ => JsonView::Str(MEGA_TOOL_NAME@),
            "description"@ => JsonView::Str(mega_description()),
            "inputSchema"@ => schemas::requiring(
                seq!["action"@],
                JsonView::Obj(
                    map![
                        "action"@ => schemas::described(
                            "string"@,
                            "Sub-action name. See list_actions for schemas."@,
                        ),
                        "args"@ => schemas::described(
                            "object"@,
                            "Action arguments (action-specific)."@,
                        ),
                    ],
                ),
            ),
        ],
    )
}

/// The descriptor of the single tool.
pub fn mega_tool_descriptor() -> (r: Json)
    ensures
        r@ == mega_descriptor(),
{
    let actions = plugin_action_names();
    let listed = text::join(&actions, 0, actions.len(), ", ");
    assert(text::views(actions@).subrange(0, actions@.len() as int) =~= action_names());
    let description = text::cat3(
        "One-tool gateway to the heliosdb-codekb MCP. Call with {action: \"<name>\", args: {...}}. Available plugin actions: ",
        listed.as_str(),
        "; plus passthrough to any engine tool by short name (e.g. action=\"lsp_definition\", \"graphrag_search\", \"query\", \"ast_diff\"). Use action=\"list_actions\" to fetch the full per-action arg schema catalogue on demand.",
    );
    let required = vec!["action"];
    assert(text::str_views(required@) =~= seq!["action"@]);
    let properties = Json::object().with(
        "action",
        schemas::described_property("string", "Sub-action name. See list_actions for schemas."),
    ).with("args", schemas::described_property("object", "Action arguments (action-specific)."));
    Json::object().with("name", Json::text(MEGA_TOOL_NAME)).with(
        "description",
        Json::Text(description),
    ).with("inputSchema", schemas::requiring_of(&required, properties))
}

/// The full tool name that an action stands for.
pub open spec fn resolved(action: Seq<char>) -> Option<Seq<char>> {
    if action == "ask"@ {
        Some("helios_ask"@)
    } else if action == "repo_summary"@ {
        Some("helios_repo_summary"@)
    } else if action == "outline_first"@ {
        Some("helios_outline_first"@)
    } else if action == "doc_drill"@ {
        Some("helios_doc_drill"@)
    } else if action == "semantic_filter"@ {
        Some("helios_semantic_filter"@)
    } else if action == "git_summary"@ {
        Some("helios_git_summary"@)
    } else if action == "symbol_card"@ {
        Some("helios_symbol_card"@)
    } else if action == "query"@ {
        Some("heliosdb_query"@)
    } else if action == "hybrid_search"@ {
        Some("heliosdb_hybrid_search"@)
    } else if action == "graphrag_search"@ {
        Some("helios_graphrag_search"@)
    } else if action == "lsp_definition"@ {
        Some("helios_lsp_definition"@)
    } else if action == "lsp_references"@ {
        Some("helios_lsp_references"@)
    } else if action == "lsp_call_hierarchy"@ {
        Some("helios_lsp_call_hierarchy"@)
    } else if action == "lsp_hover"@ {
        Some("helios_lsp_hover"@)
    } else if action == "lsp_document_symbols"@ {
        Some("helios_lsp_document_symbols"@)
    } else if action == "ast_diff"@ {
        Some("helios_ast_diff"@)
    } else if action == "list_actions"@ {
        Some("__list_actions"@)
    } else {
        None
    }
}

/// The full name of the wrapper or engine tool that `action` stands for.
pub fn resolve_action_name(action: &str) -> (r: Option<&'static str>)
    ensures
        match r {
            Some(name) => resolved(action@) == Some(name@),
            None => resolved(action@) is None,
        },
{
    if text::same(action, "ask") {
        Some("helios_ask")
    } else if text::same(action, "repo_summary") {
        Some("helios_repo_summary")
    } else if text::same(action, "outline_first") {
        Some("helios_outline_first")
    } else if text::same(action, "doc_drill") {
        Some("helios_doc_drill")
    } else if text::same(action, "semantic_filter") {
        Some("helios_semantic_filter")
    } else if text::same(action, "git_summary") {
        Some("helios_git_summary")
    } else if text::same(action, "symbol_card") {
        Some("helios_symbol_card")
    } else if text::same(action, "query") {
        Some("heliosdb_query")
    } else if text::same(action, "hybrid_search") {
        Some("heliosdb_hybrid_search")
    } else if text::same(action, "graphrag_search") {
        Some("helios_graphrag_search")
    } else if text::same(action, "lsp_definition") {
        Some("helios_lsp_definition")
    } else if text::same(action, "lsp_references") {
        Some("helios_lsp_references")
    } else if text::same(action, "lsp_call_hierarchy") {
        Some("helios_lsp_call_hierarchy")
    } else if text::same(action, "lsp_hover") {
        Some("helios_lsp_hover")
    } else if text::same(action, "lsp_document_symbols") {
        Some("helios_lsp_document_symbols")
    } else if text::same(action, "ast_diff") {
        Some("helios_ast_diff")
    } else if text::same(action, "list_actions") {
        Some("__list_actions")
    } else {
        None
    }
}

/// The catalogue entry of a wrapper tool.
pub open spec fn plugin_action_entry(t: PluginTool) -> JsonView {
    JsonView::Obj(
        map![
            "action"@ => JsonView::Str(action_name(t)),
            "description"@ => JsonView::Str(about(t)),
            "input_schema"@ => input(t),
        ],
    )
}

/// The engine tools in the catalogue, with what each does.
pub open spec fn engine_actions() -> Seq<(Seq<char>, Seq<char>)> {
    seq![
        ("query"@, "Read-only SQL query against the embedded engine. args: {sql: string}"@),
        ("hybrid_search"@, "BM25 + HNSW fusion over a user table. args: {table, query, k?}"@),
        (
            "graphrag_search"@,
            "Seed-text BFS expand. args: {seed_text, hops?, limit?, seed_kinds?, edge_kinds?}"@,
        ),
        ("lsp_definition"@, "Symbol definition lookup. args: {name, hint_file?, hint_kind?}"@),
        ("lsp_references"@, "All references to a symbol. args: {symbol_id}"@),
        ("lsp_call_hierarchy"@, "Caller/callee traversal. args: {symbol_id, direction, depth}"@),
        ("lsp_hover"@, "Signature + docstring. args: {symbol_id}"@),
        ("lsp_document_symbols"@, "Symbols in one file. args: {path}"@),
        ("ast_diff"@, "AST-level diff between branches/commits. args: {file, at_a, at_b}"@),
    ]
}

/// The catalogue entry of an engine tool.
pub open spec fn engine_action_entry(action: Seq<char>, about: Seq<char>) -> JsonView {
    JsonView::Obj(
        map![
            "action"@ => JsonView::Str(action),
            "description"@ => JsonView::Str(about),
            "input_schema"@ => JsonView::Str("see engine tool"@),
        ],
    )
}

/// The catalogue of actions: the wrapper tools, then the engine tools.
pub open spec fn action_catalogue() -> JsonView {
    JsonView::Obj(
        map![
            "actions"@ => JsonView::Arr(
                Seq::new(tool_order().len(), |i: int| plugin_action_entry(tool_order()[i]))
                    + Seq::new(
                    engine_actions().len(),
                    |i: int| engine_action_entry(engine_actions()[i].0, engine_actions()[i].1),
                ),
            ),
        ],
    )
}

/// The engine tools in the catalogue, with what each does.
fn engine_action_list() -> (r: Vec<(&'static str, &'static str)>)
    ensures
        r@.len() == engine_actions().len(),
        forall|i: int|
            0 <= i < r@.len() ==> (#[trigger] r@[i]).0@ == engine_actions()[i].0 && r@[i].1@
                == engine_actions()[i].1,
{
    let r = vec![
        ("query", "Read-only SQL query against the embedded engine. args: {sql: string}"),
        ("hybrid_search", "BM25 + HNSW fusion over a user table. args: {table, query, k?}"),
        (
            "graphrag_search",
            "Seed-text BFS expand. args: {seed_text, hops?, limit?, seed_kinds?, edge_kinds?}",
        ),
        ("lsp_definition", "Symbol definition lookup. args: {name, hint_file?, hint_kind?}"),
        ("lsp_references", "All references to a symbol. args: {symbol_id}"),
        ("lsp_call_hierarchy", "Caller/callee traversal. args: {symbol_id, direction, depth}"),
        ("lsp_hover", "Signature + docstring. args: {symbol_id}"),
        ("lsp_document_symbols", "Symbols in one file. args: {path}"),
        ("ast_diff", "AST-level diff between branches/commits. args: {file, at_a, at_b}"),
    ];
    r
}

/// The catalogue of actions: the wrapper tools, then the engine tools.
pub fn list_actions_payload() -> (r: Json)
    ensures
        r@ == action_catalogue(),
{
    let all = plugin_tools();
    let mut entries: Vec<Json> = Vec::new();
    let mut i: usize = 0;
    while i < all.len()
        invariant
            i <= all@.len(),
            all@.len() == tool_order().len(),
            forall|j: int| 0 <= j < all@.len() ==> (#[trigger] all@[j]).describes(tool_order()[j]),
            entries@.len() == i,
            forall|j: int|
                0 <= j < i ==> (#[trigger] entries@[j])@ == plugin_action_entry(tool_order()[j]),
        decreases all@.len() - i,
    {
        let desc = &all[i];
        assert(desc.describes(tool_order()[i as int]));
        let short = text::strip_prefixes(desc.name, "helios_");
        entries.push(
            Json::object().with("action", Json::Text(short)).with(
                "description",
                Json::text(desc.description),
            ).with("input_schema", desc.input_schema()),
        );
        i += 1;
    }
    let engine = engine_action_list();
    let mut k: usize = 0;
    while k < engine.len()
        invariant
            k <= engine@.len(),
            engine@.len() == engine_actions().len(),
            forall|j: int|
                0 <= j < engine@.len() ==> (#[trigger] engine@[j]).0@ == engine_actions()[j].0
                    && engine@[j].1@ == engine_actions()[j].1,
            entries@.len() == tool_order().len() + k,
            forall|j: int|
                0 <= j < tool_order().len() ==> (#[trigger] entries@[j])@ == plugin_action_entry(
                    tool_order()[j],
                ),
            forall|j: int|
                tool_order().len() <= j < entries@.len() ==> (#[trigger] entries@[j])@
                    == engine_action_entry(
                    engine_actions()[j - tool_order().len()].0,
                    engine_actions()[j - tool_order().len()].1,
                ),
        decreases engine@.len() - k,
    {
        assert(engine@[k as int].0@ == engine_actions()[k as int].0);
        entries.push(
            Json::object().with("action", Json::text(engine[k].0)).with(
                "description",
                Json::text(engine[k].1),
            ).with("input_schema", Json::text("see engine tool")),
        );
        k += 1;
    }
    assert(json::json_views(entries@) =~= Seq::new(
        tool_order().len(),
        |i: int| plugin_action_entry(tool_order()[i]),
    ) + Seq::new(
        engine_actions().len(),
        |i: int| engine_action_entry(engine_actions()[i].0, engine_actions()[i].1),
    ));
    Json::object().with("actions", Json::array(entries))
}

/// Who answers a call.
pub enum Dispatch {
    /// The engine: the name is not a wrapper's.
    NotPlugin,
    /// Nobody needs to: the answer is at hand.
    Ready(Json),
    /// The handler of this wrapper tool.
    Run(PluginTool),
}

/// Whether `d` is the decision for a call of the tool `name`.
pub open spec fn decided(
    d: Dispatch,
    c: cache::CacheView,
    name: Seq<char>,
    args: JsonView,
) -> bool {
    match tool_named(name) {
        None => d is NotPlugin,
        Some(t) => match cache::found(c, cache::call_key(name, args)) {
            Some(v) => d matches Dispatch::Ready(j) && j@ == v,
            None => d == Dispatch::Run(t),
        },
    }
}

/// The cache after the decision for a call of the tool `name`.
pub open spec fn cache_after_decision(
    c: cache::CacheView,
    name: Seq<char>,
    args: JsonView,
) -> cache::CacheView {
    if tool_named(name) is Some {
        cache::after_lookup(c, cache::call_key(name, args))
    } else {
        c
    }
}

/// Decides who answers a call of the tool `name` with `args`: the engine for
/// a name that is not a wrapper's, the cache where it holds the result, and
/// the wrapper's handler otherwise.
pub fn dispatch(cache: &mut WrapperCache, name: &str, args: &Json) -> (r: Dispatch)
    requires
        cache::sound(old(cache)@),
    ensures
        cache::sound(final(cache)@),
        decided(r, old(cache)@, name@, args@),
        final(cache)@ == cache_after_decision(old(cache)@, name@, args@),
{
    match find_tool(name) {
        Some(t) => match cache.get(name, args) {
            Some(v) => Dispatch::Ready(v),
            None => Dispatch::Run(t),
        },
        None => Dispatch::NotPlugin,
    }
}

/// Stores what the handler of the tool `name` returned for `args`. Only
/// results are stored, not errors.
pub fn remember(cache: &mut WrapperCache, name: &str, args: &Json, result: &Result<Json, String>)
    requires
        cache::sound(old(cache)@),
    ensures
        cache::sound(final(cache)@),
        final(cache)@ == match *result {
            Ok(v) => cache::after_store(old(cache)@, cache::call_key(name@, args@), v@),
            Err(_) => old(cache)@,
        },
{
    if let Ok(v) = result {
        cache.put(name, args, v);
    }
}

/// Decides who answers a call of the single tool: `list_actions` is answered
/// with the catalogue, the action of a wrapper as a call of that wrapper, and
/// any other action goes to the engine.
pub fn dispatch_mega(cache: &mut WrapperCache, action: &str, args: &Json) -> (r: Dispatch)
    requires
        cache::sound(old(cache)@),
    ensures
        cache::sound(final(cache)@),
        action@ == "list_actions"@ ==> (r matches Dispatch::Ready(j) && j@ == action_catalogue())
            && final(cache)@ == old(cache)@,
        action@ != "list_actions"@ ==> match resolved(action@) {
            Some(name) => decided(r, old(cache)@, name, args@) && final(cache)@
                == cache_after_decision(old(cache)@, name, args@),
            None => r is NotPlugin && final(cache)@ == old(cache)@,
        },
{
    if text::same(action, "list_actions") {
        return Dispatch::Ready(list_actions_payload());
    }
    match resolve_action_name(action) {
        Some(name) => dispatch(cache, name, args),
        None => Dispatch::NotPlugin,
    }
}

/// The envelope of a tool result.
pub open spec fn call_envelope(text: Seq<char>, is_error: bool) -> JsonView {
    JsonView::Obj(
        map![
            "content"@ => JsonView::Arr(
                seq![
                    JsonView::Obj(
                        map!["type"@ => JsonView::Str("text"@), "text"@ => JsonView::Str(text)],
                    ),
                ],
            ),
            "isError"@ => JsonView::Bool(is_error),
        ],
    )
}

/// The envelope around `text`.
fn envelope(text: &str, is_error: bool) -> (r: Json)
    ensures
        r@ == call_envelope(text@, is_error),
{
    let mut content: Vec<Json> = Vec::new();
    content.push(Json::object().with("type", Json::text("text")).with("text", Json::text(text)));
    let items = Json::array(content);
    assert(items@->Arr_0 =~= seq![
        JsonView::Obj(map!["type"@ => JsonView::Str("text"@), "text"@ => JsonView::Str(text@)]),
    ]);
    Json::object().with("content", items).with("isError", Json::Bool(is_error))
}

/// The envelope of a handler's result: its JSON text. That text reads as the
/// result, where the result is plain.
pub fn wrap_call_result(inner: &Json) -> (r: Json)
    ensures
        r@ == call_envelope(json::rendered_text(inner@), false),
        json::plain(inner@, json::DEPTH_LIMIT as nat) ==> json::parsed_text(
            json::rendered_text(inner@),
        ) == Some(inner@),
{
    envelope(json::render(inner).as_str(), false)
}

/// The envelope of an error message.
pub fn wrap_call_error(message: &str) -> (r: Json)
    ensures
        r@ == call_envelope(message@, true),
{
    envelope(message, true)
}

/// The prefix of a longer text without further copies of it is stripped once.
proof fn lemma_stripped_once(full: Seq<char>, prefix: Seq<char>, rest: Seq<char>)
    requires
        prefix.len() > 0,
        full == prefix + rest,
        !text::begins_with(rest, prefix),
    ensures
        text::without_prefixes(full, prefix) == rest,
{
    reveal_with_fuel(text::without_prefixes, 2);
    assert(full.take(prefix.len() as int) =~= prefix);
    assert(full.skip(prefix.len() as int) =~= rest);
}

/// The action of a wrapper tool is its short name.
proof fn lemma_action_names(t: PluginTool)
    ensures
        action_name(t) == match t {
            PluginTool::Ask => "ask"@,
            PluginTool::RepoSummary => "repo_summary"@,
            PluginTool::OutlineFirst => "outline_first"@,
            PluginTool::DocDrill => "doc_drill"@,
            PluginTool::SemanticFilter => "semantic_filter"@,
            PluginTool::GitSummary => "git_summary"@,
            PluginTool::SymbolCard => "symbol_card"@,
        },
{
    let prefix = "helios_"@;
    reveal_strlit("helios_");
    match t {
        PluginTool::Ask => {
            reveal_strlit("ask");
            reveal_strlit("helios_ask");
            assert("helios_ask"@ =~= prefix + "ask"@);
            lemma_stripped_once("helios_ask"@, prefix, "ask"@);
        },
        PluginTool::RepoSummary => {
            reveal_strlit("repo_summary");
            reveal_strlit("helios_repo_summary");
            assert("helios_repo_summary"@ =~= prefix + "repo_summary"@);
            assert("repo_summary"@.take(7)[0] != prefix[0]);
            lemma_stripped_once("helios_repo_summary"@, prefix, "repo_summary"@);
        },
        PluginTool::OutlineFirst => {
            reveal_strlit("outline_first");
            reveal_strlit("helios_outline_first");
            assert("helios_outline_first"@ =~= prefix + "outline_first"@);
            assert("outline_first"@.take(7)[0] != prefix[0]);
            lemma_stripped_once("helios_outline_first"@, prefix, "outline_first"@);
        },
        PluginTool::DocDrill => {
            reveal_strlit("doc_drill");
            reveal_strlit("helios_doc_drill");
            assert("helios_doc_drill"@ =~= prefix + "doc_drill"@);
            assert("doc_drill"@.take(7)[0] != prefix[0]);
            lemma_stripped_once("helios_doc_drill"@, prefix, "doc_drill"@);
        },
        PluginTool::SemanticFilter => {
            reveal_strlit("semantic_filter");
            reveal_strlit("helios_semantic_filter");
            assert("helios_semantic_filter"@ =~= prefix + "semantic_filter"@);
            assert("semantic_filter"@.take(7)[0] != prefix[0]);
            lemma_stripped_once("helios_semantic_filter"@, prefix, "semantic_filter"@);
        },
        PluginTool::GitSummary => {
            reveal_strlit("git_summary");
            reveal_strlit("helios_git_summary");
            assert("helios_git_summary"@ =~= prefix + "git_summary"@);
            assert("git_summary"@.take(7)[0] != prefix[0]);
            lemma_stripped_once("helios_git_summary"@, prefix, "git_summary"@);
        },
        PluginTool::SymbolCard => {
            reveal_strlit("symbol_card");
            reveal_strlit("helios_symbol_card");
            assert("helios_symbol_card"@ =~= prefix + "symbol_card"@);
            assert("symbol_card"@.take(7)[0] != prefix[0]);
            lemma_stripped_once("helios_symbol_card"@, prefix, "symbol_card"@);
        },
    }
}

/// The action of every wrapper tool resolves to that tool.
pub proof fn wrapper_actions_resolve(t: PluginTool)
    ensures
        resolved(action_name(t)) == Some(wire_name(t)),
        tool_named(wire_name(t)) == Some(t),
{
    lemma_action_names(t);
    reveal_strlit("ask");
    reveal_strlit("repo_summary");
    reveal_strlit("outline_first");
    reveal_strlit("doc_drill");
    reveal_strlit("semantic_filter");
    reveal_strlit("git_summary");
    reveal_strlit("symbol_card");
    reveal_strlit("helios_ask");
    reveal_strlit("helios_repo_summary");
    reveal_strlit("helios_outline_first");
    reveal_strlit("helios_doc_drill");
    reveal_strlit("helios_semantic_filter");
    reveal_strlit("helios_git_summary");
    reveal_strlit("helios_symbol_card");
    assert("ask"@.len() == 3 && "repo_summary"@.len() == 12 && "outline_first"@.len() == 13);
    assert("doc_drill"@.len() == 9 && "semantic_filter"@.len() == 15);
    assert("git_summary"@.len() == 11 && "symbol_card"@.len() == 11);
    assert("git_summary"@[0] != "symbol_card"@[0]);
    assert("helios_git_summary"@[7] != "helios_symbol_card"@[7]);
}

/// A call whose result was remembered is answered from the cache when it is
/// repeated, where the cache is on.
pub proof fn remembered_call_is_answered_from_the_cache(
    c: cache::CacheView,
    t: PluginTool,
    args: JsonView,
    value: JsonView,
    d: Dispatch,
)
    requires
        cache::sound(c),
        c.cap > 0,
        decided(
            d,
            cache::after_store(c, cache::call_key(wire_name(t), args), value),
            wire_name(t),
            args,
        ),
    ensures
        d matches Dispatch::Ready(j) && j@ == value,
{
    wrapper_actions_resolve(t);
    cache::stored_result_is_found(c, cache::call_key(wire_name(t), args), value);
}

} // verus!
