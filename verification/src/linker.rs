//! Links from documentation to code: which text nodes mention which symbols.

use vstd::prelude::*;
use vstd::string::*;

use crate::cells;
use crate::cells::Cell;
use crate::decimal;
use crate::statements;
use crate::strmap;
use crate::strmap::StrMap;
use crate::text;

use std::collections::HashMap;
use std::collections::HashSet;

verus! {

broadcast use vstd::std_specs::hash::group_hash_axioms;

/// What a pass of the linker did.
#[derive(Debug, Clone, Copy, PartialEq, Eq, Structural)]
pub struct LinkerStats {
    pub nodes_scanned: usize,
    pub candidates_seen: usize,
    pub mentions_added: usize,
}

/// The query for the text nodes that are scanned.
pub const TEXT_NODES_SQL: &'static str = "SELECT node_id, title, text FROM _hdb_graph_nodes WHERE node_kind IN ('DocChunk','DocSection','Email','Issue','Comment','InvestorQuestion','Answer')";

// ---------------------------------------------------------------------------
// Whole words
// ---------------------------------------------------------------------------

/// Whether a character can stand in a qualified name.
pub open spec fn is_ident(c: char) -> bool {
    ('a' <= c <= 'z') || ('A' <= c <= 'Z') || ('0' <= c <= '9') || c == '_' || c == ':' || c == '.'
}

/// Whether the part `from..to` of a text is flanked by no name character.
pub open spec fn stands_alone(h: Seq<char>, from: int, to: int) -> bool {
    (from == 0 || !is_ident(h[from - 1])) && (to == h.len() || !is_ident(h[to]))
}

/// Whether one of the occurrences of `n` in `h` that a search from `from`
/// finds stands alone. The search goes on behind each occurrence it finds.
pub open spec fn whole_word_from(h: Seq<char>, n: Seq<char>, from: int) -> bool
    decreases h.len() - from,
    via whole_word_decreases
{
    if n.len() == 0 || from < 0 {
        false
    } else {
        match text::first_at(h, n, from) {
            Some(p) => stands_alone(h, p, p + n.len()) || whole_word_from(h, n, p + n.len()),
            None => false,
        }
    }
}

#[via_fn]
proof fn whole_word_decreases(h: Seq<char>, n: Seq<char>, from: int) {
    if from >= 0 {
        text::lemma_first_at(h, n, from);
    }
}

/// Whether `n` stands in `h` as a whole word.
pub open spec fn has_whole_word(h: Seq<char>, n: Seq<char>) -> bool {
    whole_word_from(h, n, 0)
}

/// Whether a character can stand in a qualified name.
pub fn is_ident_char(c: char) -> (r: bool)
    ensures
        r == is_ident(c),
{
    ('a' <= c && c <= 'z') || ('A' <= c && c <= 'Z') || ('0' <= c && c <= '9') || c == '_' || c
        == ':' || c == '.'
}

/// Whether `needle` stands in `haystack` as a whole word: not flanked by name
/// characters. An empty needle stands nowhere.
pub fn contains_whole_word(haystack: &str, needle: &str) -> (r: bool)
    ensures
        r == has_whole_word(haystack@, needle@),
{
    let h = text::chars_of(haystack);
    let n = text::chars_of(needle);
    find_whole_word(&h, &n)
}

/// Whether `n` stands in `h` as a whole word.
fn find_whole_word(h: &Vec<char>, n: &Vec<char>) -> (r: bool)
    ensures
        r == has_whole_word(h@, n@),
{
    if n.len() == 0 {
        return false;
    }
    let mut start: usize = 0;
    while start < h.len()
        invariant
            start <= h@.len(),
            n@.len() > 0,
            has_whole_word(h@, n@) == whole_word_from(h@, n@, start as int),
        decreases h@.len() - start,
    {
        proof {
            text::lemma_first_at(h@, n@, start as int);
        }
        match text::find_from(h, n, start) {
            Some(p) => {
                let end = p + n.len();
                let before_ok = p == 0 || !is_ident_char(h[p - 1]);
                let after_ok = end == h.len() || !is_ident_char(h[end]);
                if before_ok && after_ok {
                    return true;
                }
                start = end;
            },
            None => {
                return false;
            },
        }
    }
    proof {
        text::lemma_first_at(h@, n@, start as int);
    }
    false
}

/// A whole word that is found stands in the text, flanked by no name character.
pub proof fn whole_word_stands_alone(h: Seq<char>, n: Seq<char>, from: int)
    requires
        0 <= from,
        whole_word_from(h, n, from),
    ensures
        exists|p: int|
            #[trigger] text::occurs_at(h, n, p) && stands_alone(h, p, p + n.len()),
    decreases h.len() - from,
{
    text::lemma_first_at(h, n, from);
    if let Some(p) = text::first_at(h, n, from) {
        if !stands_alone(h, p, p + n.len()) {
            whole_word_stands_alone(h, n, p + n.len());
        }
    }
}

/// A text that stands in another, flanked by no name character, is found,
/// where no earlier occurrence of it reaches into that place.
pub proof fn standing_text_is_found(h: Seq<char>, n: Seq<char>, p: int, from: int)
    requires
        n.len() > 0,
        0 <= from <= p,
        text::occurs_at(h, n, p),
        stands_alone(h, p, p + n.len()),
        forall|q: int| from <= q < p < q + n.len() ==> !#[trigger] text::occurs_at(h, n, q),
    ensures
        whole_word_from(h, n, from),
    decreases p - from,
{
    text::lemma_first_at(h, n, from);
    let q = text::first_at(h, n, from)->0;
    if q != p {
        standing_text_is_found(h, n, p, q + n.len());
    }
}

/// A name of name characters that stands in the text, flanked by no name
/// character, is found.
pub proof fn standing_name_is_found(h: Seq<char>, n: Seq<char>, p: int)
    requires
        n.len() > 0,
        forall|i: int| 0 <= i < n.len() ==> is_ident(#[trigger] n[i]),
        text::occurs_at(h, n, p),
        stands_alone(h, p, p + n.len()),
    ensures
        has_whole_word(h, n),
{
    assert forall|q: int| 0 <= q < p < q + n.len() implies !#[trigger] text::occurs_at(
        h,
        n,
        q,
    ) by {
        if text::occurs_at(h, n, q) {
            assert(h.subrange(q, q + n.len())[p - 1 - q] == h[p - 1]);
            assert(is_ident(n[p - 1 - q]));
        }
    }
    standing_text_is_found(h, n, p, 0);
}

// ---------------------------------------------------------------------------
// What the rows say
// ---------------------------------------------------------------------------

/// The symbols in some rows (qualified name, symbol); rows without a name or
/// a symbol are left out.
pub open spec fn named_symbols(rows: Seq<Vec<Cell>>) -> Seq<(Seq<char>, int)>
    decreases rows.len(),
{
    if rows.len() == 0 {
        Seq::empty()
    } else {
        let before = named_symbols(rows.drop_last());
        let row = rows.last()@;
        match cells::id_at(row, 1) {
            Some(id) => if cells::has_text_at(row, 0) {
                before.push((cells::text_at(row, 0), id))
            } else {
                before
            },
            None => before,
        }
    }
}

/// The symbol that a source reference names.
pub open spec fn referenced_symbol(source_ref: Seq<char>) -> Option<int> {
    match text::after_prefix(source_ref, "code_symbol:"@) {
        Some(rest) => decimal::integer_of(rest),
        None => None,
    }
}

/// The graph node of each symbol, from the rows (source reference, node); of
/// two nodes with one symbol the later counts.
pub open spec fn symbol_nodes(rows: Seq<Vec<Cell>>) -> Map<int, int>
    decreases rows.len(),
{
    if rows.len() == 0 {
        Map::empty()
    } else {
        let before = symbol_nodes(rows.drop_last());
        let row = rows.last()@;
        match (cells::id_at(row, 1), referenced_symbol(cells::text_at(row, 0))) {
            (Some(node), Some(symbol)) => if cells::has_text_at(row, 0) {
                before.insert(symbol, node)
            } else {
                before
            },
            _ => before,
        }
    }
}

/// The links in some rows (from, to); rows without both are left out.
pub open spec fn linked_pairs(rows: Seq<Vec<Cell>>) -> Set<(int, int)>
    decreases rows.len(),
{
    if rows.len() == 0 {
        Set::empty()
    } else {
        let before = linked_pairs(rows.drop_last());
        match (cells::id_at(rows.last()@, 0), cells::id_at(rows.last()@, 1)) {
            (Some(from), Some(to)) => before.insert((from, to)),
            _ => before,
        }
    }
}

/// The text that a row (node, title, text) is searched in; a row without a
/// node, or with neither title nor text, is not searched.
pub open spec fn searched_text(row: Seq<Cell>) -> Option<(int, Seq<char>)> {
    match cells::id_at(row, 0) {
        Some(node) => if cells::text_at(row, 1).len() == 0 && cells::text_at(row, 2).len() == 0 {
            None
        } else {
            Some((node, cells::text_at(row, 1) + "\n"@ + cells::text_at(row, 2)))
        },
        None => None,
    }
}

/// The different names of some symbols, in the order of their first symbols.
pub open spec fn different_names(symbols: Seq<(Seq<char>, int)>) -> Seq<Seq<char>>
    decreases symbols.len(),
{
    if symbols.len() == 0 {
        Seq::empty()
    } else {
        let before = different_names(symbols.drop_last());
        if before.contains(symbols.last().0) {
            before
        } else {
            before.push(symbols.last().0)
        }
    }
}

/// The symbols of a name, in their order.
pub open spec fn symbols_named(symbols: Seq<(Seq<char>, int)>, name: Seq<char>) -> Seq<int>
    decreases symbols.len(),
{
    if symbols.len() == 0 {
        Seq::empty()
    } else {
        let before = symbols_named(symbols.drop_last(), name);
        if symbols.last().0 == name {
            before.push(symbols.last().1)
        } else {
            before
        }
    }
}

/// The links from a text node to the graph nodes of some symbols.
pub open spec fn links_to(node: int, ids: Seq<int>, graph: Map<int, int>) -> Set<(int, int)>
    decreases ids.len(),
{
    if ids.len() == 0 {
        Set::empty()
    } else {
        let before = links_to(node, ids.drop_last(), graph);
        if graph.dom().contains(ids.last()) {
            before.insert((node, graph[ids.last()]))
        } else {
            before
        }
    }
}

/// The links from a text node to the symbols of those of some names that
/// stand in its text as whole words.
pub open spec fn links_by_name(
    node: int,
    hay: Seq<char>,
    names: Seq<Seq<char>>,
    symbols: Seq<(Seq<char>, int)>,
    graph: Map<int, int>,
) -> Set<(int, int)>
    decreases names.len(),
{
    if names.len() == 0 {
        Set::empty()
    } else {
        let before = links_by_name(node, hay, names.drop_last(), symbols, graph);
        if has_whole_word(hay, names.last()) {
            before.union(links_to(node, symbols_named(symbols, names.last()), graph))
        } else {
            before
        }
    }
}

/// The links from some text nodes.
pub open spec fn links_from(
    texts: Seq<Vec<Cell>>,
    symbols: Seq<(Seq<char>, int)>,
    graph: Map<int, int>,
) -> Set<(int, int)>
    decreases texts.len(),
{
    if texts.len() == 0 {
        Set::empty()
    } else {
        let before = links_from(texts.drop_last(), symbols, graph);
        match searched_text(texts.last()@) {
            Some((node, hay)) => before.union(
                links_by_name(node, hay, different_names(symbols), symbols, graph),
            ),
            None => before,
        }
    }
}

/// The number of names that stand in a text as whole words.
pub open spec fn names_found(hay: Seq<char>, names: Seq<Seq<char>>) -> int
    decreases names.len(),
{
    if names.len() == 0 {
        0
    } else {
        names_found(hay, names.drop_last()) + if has_whole_word(hay, names.last()) {
            1int
        } else {
            0
        }
    }
}

/// The number of pairs of a text node and a name that stands in its text as a
/// whole word.
pub open spec fn candidates(texts: Seq<Vec<Cell>>, names: Seq<Seq<char>>) -> int
    decreases texts.len(),
{
    if texts.len() == 0 {
        0
    } else {
        candidates(texts.drop_last(), names) + match searched_text(texts.last()@) {
            Some((_, hay)) => names_found(hay, names),
            None => 0,
        }
    }
}

/// Whether a text node mentions a symbol whose graph node is `to`.
pub open spec fn mentions(
    row: Seq<Cell>,
    symbol: (Seq<char>, int),
    graph: Map<int, int>,
    from: int,
    to: int,
) -> bool {
    match searched_text(row) {
        Some((node, hay)) => node == from && has_whole_word(hay, symbol.0) && graph.dom().contains(
            symbol.1,
        ) && graph[symbol.1] == to,
        None => false,
    }
}

/// Every symbol stands under its name.
proof fn lemma_named(symbols: Seq<(Seq<char>, int)>, i: int)
    requires
        0 <= i < symbols.len(),
    ensures
        different_names(symbols).contains(symbols[i].0),
        symbols_named(symbols, symbols[i].0).contains(symbols[i].1),
    decreases symbols.len(),
{
    let rest = symbols.drop_last();
    let name = symbols[i].0;
    if i < rest.len() {
        assert(rest[i] == symbols[i]);
        lemma_named(rest, i);
        let j = choose|j: int|
            0 <= j < different_names(rest).len() && different_names(rest)[j] == name;
        assert(different_names(symbols)[j] == name);
        let k = choose|k: int|
            0 <= k < symbols_named(rest, name).len() && symbols_named(rest, name)[k]
                == symbols[i].1;
        assert(symbols_named(symbols, name)[k] == symbols[i].1);
    } else {
        let all = symbols_named(symbols, name);
        assert(all[all.len() - 1] == symbols[i].1);
        if !different_names(rest).contains(name) {
            let names = different_names(symbols);
            assert(names[names.len() - 1] == name);
        }
    }
}

/// What stands under a name comes from a symbol of that name.
proof fn lemma_named_back(symbols: Seq<(Seq<char>, int)>, name: Seq<char>, k: int) -> (i: int)
    requires
        0 <= k < symbols_named(symbols, name).len(),
    ensures
        0 <= i < symbols.len(),
        symbols[i] == (name, symbols_named(symbols, name)[k]),
    decreases symbols.len(),
{
    let rest = symbols.drop_last();
    if k < symbols_named(rest, name).len() {
        let i = lemma_named_back(rest, name, k);
        assert(rest[i] == symbols[i]);
        i
    } else {
        symbols.len() - 1
    }
}

/// The links to some symbols are those to each of them.
proof fn lemma_links_to(node: int, ids: Seq<int>, graph: Map<int, int>, from: int, to: int)
    ensures
        links_to(node, ids, graph).contains((from, to)) <==> from == node && exists|k: int|
            0 <= k < ids.len() && graph.dom().contains(#[trigger] ids[k]) && graph[ids[k]] == to,
    decreases ids.len(),
{
    if ids.len() > 0 {
        let rest = ids.drop_last();
        lemma_links_to(node, rest, graph, from, to);
        if from == node {
            if exists|k: int|
                0 <= k < rest.len() && graph.dom().contains(#[trigger] rest[k]) && graph[rest[k]]
                    == to {
                let k = choose|k: int|
                    0 <= k < rest.len() && graph.dom().contains(#[trigger] rest[k])
                        && graph[rest[k]] == to;
                assert(ids[k] == rest[k]);
            }
            if exists|k: int|
                0 <= k < ids.len() && graph.dom().contains(#[trigger] ids[k]) && graph[ids[k]]
                    == to {
                let k = choose|k: int|
                    0 <= k < ids.len() && graph.dom().contains(#[trigger] ids[k]) && graph[ids[k]]
                        == to;
                if k < rest.len() {
                    assert(rest[k] == ids[k]);
                }
            }
            if graph.dom().contains(ids.last()) && graph[ids.last()] == to {
                assert(ids[ids.len() - 1] == ids.last());
            }
        }
    }
}

/// The links by some names are those by each of them.
proof fn lemma_links_by_name(
    node: int,
    hay: Seq<char>,
    names: Seq<Seq<char>>,
    symbols: Seq<(Seq<char>, int)>,
    graph: Map<int, int>,
    from: int,
    to: int,
)
    ensures
        links_by_name(node, hay, names, symbols, graph).contains((from, to)) <==> exists|k: int|
            0 <= k < names.len() && has_whole_word(hay, #[trigger] names[k]) && links_to(
                node,
                symbols_named(symbols, names[k]),
                graph,
            ).contains((from, to)),
    decreases names.len(),
{
    if names.len() > 0 {
        let rest = names.drop_last();
        lemma_links_by_name(node, hay, rest, symbols, graph, from, to);
        let left = links_by_name(node, hay, names, symbols, graph).contains((from, to));
        if left {
            if links_by_name(node, hay, rest, symbols, graph).contains((from, to)) {
                let k = choose|k: int|
                    0 <= k < rest.len() && has_whole_word(hay, #[trigger] rest[k]) && links_to(
                        node,
                        symbols_named(symbols, rest[k]),
                        graph,
                    ).contains((from, to));
                assert(names[k] == rest[k]);
            } else {
                assert(names[names.len() - 1] == names.last());
            }
        }
        if exists|k: int|
            0 <= k < names.len() && has_whole_word(hay, #[trigger] names[k]) && links_to(
                node,
                symbols_named(symbols, names[k]),
                graph,
            ).contains((from, to)) {
            let k = choose|k: int|
                0 <= k < names.len() && has_whole_word(hay, #[trigger] names[k]) && links_to(
                    node,
                    symbols_named(symbols, names[k]),
                    graph,
                ).contains((from, to));
            if k < rest.len() {
                assert(rest[k] == names[k]);
            }
        }
    }
}

/// A link from some text nodes is one from a text node that mentions a symbol.
pub proof fn links_are_the_mentions(
    texts: Seq<Vec<Cell>>,
    symbols: Seq<(Seq<char>, int)>,
    graph: Map<int, int>,
    from: int,
    to: int,
)
    ensures
        links_from(texts, symbols, graph).contains((from, to)) <==> exists|t: int, s: int|
            0 <= t < texts.len() && 0 <= s < symbols.len() && mentions(
                (#[trigger] texts[t])@,
                #[trigger] symbols[s],
                graph,
                from,
                to,
            ),
    decreases texts.len(),
{
    if texts.len() > 0 {
        let rest = texts.drop_last();
        let row = texts.last()@;
        let names = different_names(symbols);
        links_are_the_mentions(rest, symbols, graph, from, to);
        if links_from(texts, symbols, graph).contains((from, to)) {
            if links_from(rest, symbols, graph).contains((from, to)) {
                let (t, s) = choose|t: int, s: int|
                    0 <= t < rest.len() && 0 <= s < symbols.len() && mentions(
                        (#[trigger] rest[t])@,
                        #[trigger] symbols[s],
                        graph,
                        from,
                        to,
                    );
                assert(texts[t] == rest[t]);
                assert(mentions(texts[t]@, symbols[s], graph, from, to));
            } else {
                let (node, hay) = searched_text(row)->0;
                lemma_links_by_name(node, hay, names, symbols, graph, from, to);
                let k = choose|k: int|
                    0 <= k < names.len() && has_whole_word(hay, #[trigger] names[k]) && links_to(
                        node,
                        symbols_named(symbols, names[k]),
                        graph,
                    ).contains((from, to));
                let ids = symbols_named(symbols, names[k]);
                lemma_links_to(node, ids, graph, from, to);
                let j = choose|j: int|
                    0 <= j < ids.len() && graph.dom().contains(#[trigger] ids[j]) && graph[ids[j]]
                        == to;
                let s = lemma_named_back(symbols, names[k], j);
                assert(texts[texts.len() - 1]@ == row);
                assert(mentions(texts[texts.len() - 1]@, symbols[s], graph, from, to));
            }
        }
        if exists|t: int, s: int|
            0 <= t < texts.len() && 0 <= s < symbols.len() && mentions(
                (#[trigger] texts[t])@,
                #[trigger] symbols[s],
                graph,
                from,
                to,
            ) {
            let (t, s) = choose|t: int, s: int|
                0 <= t < texts.len() && 0 <= s < symbols.len() && mentions(
                    (#[trigger] texts[t])@,
                    #[trigger] symbols[s],
                    graph,
                    from,
                    to,
                );
            if t < rest.len() {
                assert(rest[t] == texts[t]);
                assert(mentions(rest[t]@, symbols[s], graph, from, to));
            } else {
                let (node, hay) = searched_text(row)->0;
                lemma_named(symbols, s);
                let ids = symbols_named(symbols, symbols[s].0);
                let j = choose|j: int| 0 <= j < ids.len() && ids[j] == symbols[s].1;
                assert(graph.dom().contains(ids[j]));
                lemma_links_to(node, ids, graph, from, to);
                let k = choose|k: int| 0 <= k < names.len() && names[k] == symbols[s].0;
                assert(has_whole_word(hay, names[k]));
                lemma_links_by_name(node, hay, names, symbols, graph, from, to);
            }
        }
    }
}

// ---------------------------------------------------------------------------
// The pass
// ---------------------------------------------------------------------------

/// A pair of identifiers as one number.
spec fn pair_code(from: int, to: int) -> int {
    (from + 0x8000_0000_0000_0000) * 0x1_0000_0000_0000_0000 + (to + 0x8000_0000_0000_0000)
}

/// A pair of identifiers as one number.
fn code_of(from: i64, to: i64) -> (r: u128)
    ensures
        r == pair_code(from as int, to as int),
{
    let a = (from as i128 + 0x8000_0000_0000_0000) as u128;
    let b = (to as i128 + 0x8000_0000_0000_0000) as u128;
    a * 0x1_0000_0000_0000_0000 + b
}

/// Whether a set of numbers stands for a set of pairs.
spec fn stands_for(codes: Set<u128>, pairs: Set<(int, int)>) -> bool {
    forall|from: i64, to: i64|
        #![trigger pairs.contains((from as int, to as int))]
        codes.contains(pair_code(from as int, to as int) as u128) == pairs.contains(
            (from as int, to as int),
        )
}

/// One more pair is one more number.
proof fn lemma_stands_for_insert(
    codes: Set<u128>,
    pairs: Set<(int, int)>,
    from: i64,
    to: i64,
)
    requires
        stands_for(codes, pairs),
    ensures
        stands_for(
            codes.insert(pair_code(from as int, to as int) as u128),
            pairs.insert((from as int, to as int)),
        ),
{
    let more = pairs.insert((from as int, to as int));
    let code = pair_code(from as int, to as int) as u128;
    assert forall|f: i64, t: i64|
        #![trigger more.contains((f as int, t as int))]
        codes.insert(code).contains(pair_code(f as int, t as int) as u128) == more.contains(
            (f as int, t as int),
        ) by {
        assert(pairs.contains((f as int, t as int)) == codes.contains(
            pair_code(f as int, t as int) as u128,
        ));
        let x = pair_code(f as int, t as int);
        let y = pair_code(from as int, to as int);
        assert(0 <= x < 0x1_0000_0000_0000_0000_0000_0000_0000_0000);
        assert(0 <= y < 0x1_0000_0000_0000_0000_0000_0000_0000_0000);
        assert(x as u128 == x && y as u128 == y);
        if x == y {
            assert(f == from && t == to);
        }
    }
}

/// The links of a list.
pub open spec fn pair_set(pairs: Seq<(i64, i64)>) -> Set<(int, int)>
    decreases pairs.len(),
{
    if pairs.len() == 0 {
        Set::empty()
    } else {
        pair_set(pairs.drop_last()).insert((pairs.last().0 as int, pairs.last().1 as int))
    }
}

/// A list of links is a list of its members.
proof fn lemma_pair_set(pairs: Seq<(i64, i64)>, from: i64, to: i64)
    ensures
        pair_set(pairs).contains((from as int, to as int)) <==> pairs.contains((from, to)),
    decreases pairs.len(),
{
    if pairs.len() > 0 {
        let rest = pairs.drop_last();
        lemma_pair_set(rest, from, to);
        if rest.contains((from, to)) {
            let i = choose|i: int| 0 <= i < rest.len() && rest[i] == (from, to);
            assert(pairs[i] == (from, to));
        }
        if pairs.contains((from, to)) {
            let i = choose|i: int| 0 <= i < pairs.len() && pairs[i] == (from, to);
            if i < rest.len() {
                assert(rest[i] == (from, to));
            }
        }
        assert(pairs[pairs.len() - 1] == pairs.last());
    }
}

/// The symbols by name: the names in the order in which they came, and the
/// symbols of each.
struct NameIndex {
    names: StrMap<()>,
    ids: Vec<Vec<i64>>,
}

/// The identifiers of a list.
spec fn id_views(v: Seq<i64>) -> Seq<int> {
    Seq::new(v.len(), |i: int| v[i] as int)
}

impl NameIndex {
    /// Whether the index holds some symbols.
    spec fn holds(self, symbols: Seq<(Seq<char>, int)>) -> bool {
        &&& self.names.sound()
        &&& self.names.order() == different_names(symbols)
        &&& self.ids@.len() == self.names.order().len()
        &&& forall|k: int|
            0 <= k < self.ids@.len() ==> id_views((#[trigger] self.ids@[k])@) == symbols_named(
                symbols,
                self.names.order()[k],
            )
    }
}

/// A name that none of some symbols has has no symbols.
proof fn lemma_unnamed(symbols: Seq<(Seq<char>, int)>, name: Seq<char>)
    requires
        !different_names(symbols).contains(name),
    ensures
        symbols_named(symbols, name) == Seq::<int>::empty(),
    decreases symbols.len(),
{
    if symbols.len() > 0 {
        lemma_named(symbols, symbols.len() - 1);
        let rest = symbols.drop_last();
        if different_names(rest).contains(name) {
            let j = choose|j: int|
                0 <= j < different_names(rest).len() && different_names(rest)[j] == name;
            assert(different_names(symbols)[j] == name);
        }
        lemma_unnamed(rest, name);
    }
}

/// The symbols by name.
fn read_names(rows: &Vec<Vec<Cell>>) -> (r: NameIndex)
    ensures
        r.holds(named_symbols(rows@)),
{
    let mut names: StrMap<()> = StrMap::new();
    let mut ids: Vec<Vec<i64>> = Vec::new();
    let mut i: usize = 0;
    assert(rows@.take(0) =~= Seq::empty());
    let ghost mut current = NameIndex { names, ids };
    while i < rows.len()
        invariant
            i <= rows@.len(),
            current.names == names,
            current.ids == ids,
            current.holds(named_symbols(rows@.take(i as int))),
        decreases rows@.len() - i,
    {
        let row = &rows[i];
        let ghost before = named_symbols(rows@.take(i as int));
        let ghost held = current;
        assert(rows@.take(i + 1).drop_last() =~= rows@.take(i as int));
        if let Some(name) = cells::as_string(row, 0) {
            if let Some(id) = cells::to_int(row, 1) {
                let ghost after = before.push((name@, id as int));
                assert(after.drop_last() =~= before);
                match names.find(name.as_str()) {
                    Some(k) => {
                        ids[k].push(id);
                        proof {
                            assert(names.order()[k as int] == name@);
                            assert(names.order().contains(name@));
                            assert forall|j: int| 0 <= j < ids@.len() implies id_views(
                                (#[trigger] ids@[j])@,
                            ) == symbols_named(after, names.order()[j]) by {
                                assert(id_views(held.ids@[j]@) == symbols_named(
                                    before,
                                    names.order()[j],
                                ));
                                if j == k {
                                    assert(id_views(ids@[j]@) =~= id_views(held.ids@[j]@).push(
                                        id as int,
                                    ));
                                } else {
                                    strmap::lemma_order(names);
                                    assert(names.order()[j] != names.order()[k as int]);
                                }
                            }
                        }
                    },
                    None => {
                        names.insert(name.as_str(), ());
                        let mut first: Vec<i64> = Vec::new();
                        first.push(id);
                        ids.push(first);
                        proof {
                            lemma_unnamed(before, name@);
                            assert(id_views(first@) =~= Seq::<int>::empty().push(id as int));
                            assert forall|j: int| 0 <= j < ids@.len() implies id_views(
                                (#[trigger] ids@[j])@,
                            ) == symbols_named(after, names.order()[j]) by {
                                if j < held.ids@.len() {
                                    assert(id_views(held.ids@[j]@) == symbols_named(
                                        before,
                                        held.names.order()[j],
                                    ));
                                    assert(held.names.order().contains(held.names.order()[j]));
                                }
                            }
                        }
                    },
                }
                proof {
                    current = NameIndex { names, ids };
                }
            }
        }
        i += 1;
    }
    assert(rows@.take(i as int) =~= rows@);
    NameIndex { names, ids }
}

/// Whether a map holds the graph node of each symbol.
spec fn holds_nodes(m: Map<i64, i64>, table: Map<int, int>) -> bool {
    forall|id: i64|
        #![trigger m.dom().contains(id)]
        m.dom().contains(id) == table.dom().contains(id as int) && (m.dom().contains(id) ==> m[id]
            == table[id as int])
}

/// The graph node of each symbol.
fn read_nodes(rows: &Vec<Vec<Cell>>) -> (r: HashMap<i64, i64>)
    ensures
        holds_nodes(r@, symbol_nodes(rows@)),
{
    let mut out: HashMap<i64, i64> = HashMap::new();
    let mut i: usize = 0;
    assert(rows@.take(0) =~= Seq::empty());
    while i < rows.len()
        invariant
            i <= rows@.len(),
            holds_nodes(out@, symbol_nodes(rows@.take(i as int))),
        decreases rows@.len() - i,
    {
        assert(rows@.take(i + 1).drop_last() =~= rows@.take(i as int));
        if let Some(source_ref) = cells::as_string(&rows[i], 0) {
            if let Some(node) = cells::to_int(&rows[i], 1) {
                if let Some(rest) = text::strip_prefix(source_ref.as_str(), "code_symbol:") {
                    if let Some(symbol) = decimal::read_i64(rest.as_str()) {
                        out.insert(symbol, node);
                    }
                }
            }
        }
        i += 1;
    }
    assert(rows@.take(i as int) =~= rows@);
    out
}

/// The links that are there already.
fn read_links(rows: &Vec<Vec<Cell>>) -> (r: HashSet<u128>)
    ensures
        stands_for(r@, linked_pairs(rows@)),
{
    let mut out: HashSet<u128> = HashSet::new();
    let mut i: usize = 0;
    assert(rows@.take(0) =~= Seq::empty());
    while i < rows.len()
        invariant
            i <= rows@.len(),
            stands_for(out@, linked_pairs(rows@.take(i as int))),
        decreases rows@.len() - i,
    {
        assert(rows@.take(i + 1).drop_last() =~= rows@.take(i as int));
        if let Some(from) = cells::to_int(&rows[i], 0) {
            if let Some(to) = cells::to_int(&rows[i], 1) {
                proof {
                    lemma_stands_for_insert(
                        out@,
                        linked_pairs(rows@.take(i as int)),
                        from,
                        to,
                    );
                }
                out.insert(code_of(from, to));
            }
        }
        i += 1;
    }
    assert(rows@.take(i as int) =~= rows@);
    out
}

/// The new links so far, and the numbers of all links.
struct Found {
    seen: HashSet<u128>,
    pairs: Vec<(i64, i64)>,
}

impl Found {
    /// Whether the new links are those of `links` that are not in `existing`,
    /// each once.
    spec fn holds(self, links: Set<(int, int)>, existing: Set<(int, int)>) -> bool {
        &&& stands_for(self.seen@, existing.union(links))
        &&& self.pairs@.no_duplicates()
        &&& pair_set(self.pairs@) == links.difference(existing)
    }

    /// Adds a link, if it is not there yet.
    fn add_link(&mut self, from: i64, to: i64, Ghost(links): Ghost<Set<(int, int)>>, Ghost(
        existing,
    ): Ghost<Set<(int, int)>>)
        requires
            old(self).holds(links, existing),
        ensures
            final(self).holds(links.insert((from as int, to as int)), existing),
    {
        let ghost all = existing.union(links);
        let ghost pair = (from as int, to as int);
        let ghost more = links.insert(pair);
        let ghost before = self.pairs@;
        let code = code_of(from, to);
        assert(all.contains(pair) == self.seen@.contains(code)) by {
            assert(code as int == pair_code(from as int, to as int));
        }
        if self.seen.contains(&code) {
            proof {
                assert(existing.union(more) =~= all);
                assert(more.difference(existing) =~= links.difference(existing));
            }
        } else {
            proof {
                lemma_stands_for_insert(self.seen@, all, from, to);
                lemma_pair_set(before, from, to);
            }
            self.seen.insert(code);
            self.pairs.push((from, to));
            proof {
                assert(existing.union(more) =~= all.insert(pair));
                assert(self.pairs@.drop_last() =~= before);
                assert(more.difference(existing) =~= links.difference(existing).insert(pair));
                assert(self.pairs@.no_duplicates()) by {
                    assert forall|i: int, j: int|
                        0 <= i < self.pairs@.len() && 0 <= j < self.pairs@.len() && i
                            != j implies self.pairs@[i] != self.pairs@[j] by {
                        if i < before.len() && j < before.len() {
                            assert(before[i] != before[j]);
                        } else if i < before.len() {
                            assert(before.contains(before[i]));
                        } else {
                            assert(before.contains(before[j]));
                        }
                    }
                }
            }
        }
    }
}

/// Adds the links from a text node to the symbols of the names that stand in
/// its text; returns the number of those names.
fn link_node(
    found: &mut Found,
    node: i64,
    hay: &str,
    index: &NameIndex,
    graph: &HashMap<i64, i64>,
    Ghost(symbols): Ghost<Seq<(Seq<char>, int)>>,
    Ghost(nodes): Ghost<Map<int, int>>,
    Ghost(links): Ghost<Set<(int, int)>>,
    Ghost(existing): Ghost<Set<(int, int)>>,
) -> (r: usize)
    requires
        old(found).holds(links, existing),
        index.holds(symbols),
        holds_nodes(graph@, nodes),
    ensures
        final(found).holds(
            links.union(
                links_by_name(node as int, hay@, different_names(symbols), symbols, nodes),
            ),
            existing,
        ),
        r == names_found(hay@, different_names(symbols)),
        r <= different_names(symbols).len(),
{
    let ghost names = different_names(symbols);
    let ghost by_name = |n: int|
        links_by_name(node as int, hay@, names.take(n), symbols, nodes);
    let hs = text::chars_of(hay);
    let mut seen_names: usize = 0;
    let mut k: usize = 0;
    assert(names.take(0) =~= Seq::empty());
    assert(links.union(by_name(0)) =~= links);
    while k < index.names.len()
        invariant
            index.holds(symbols),
            holds_nodes(graph@, nodes),
            names == different_names(symbols),
            hs@ == hay@,
            k <= names.len(),
            forall|n: int|
                #[trigger] by_name(n) == links_by_name(
                    node as int,
                    hay@,
                    names.take(n),
                    symbols,
                    nodes,
                ),
            found.holds(links.union(by_name(k as int)), existing),
            seen_names == names_found(hay@, names.take(k as int)),
            seen_names <= k,
        decreases names.len() - k,
    {
        assert(names.take(k + 1).drop_last() =~= names.take(k as int));
        let ghost sofar = links.union(by_name(k as int));
        let ghost name = names[k as int];
        let needle = text::chars_of(index.names.key_at(k));
        if find_whole_word(&hs, &needle) {
            seen_names += 1;
            let ids = &index.ids[k];
            let ghost all = symbols_named(symbols, name);
            let mut j: usize = 0;
            assert(id_views(ids@) == all);
            assert(all.take(0) =~= Seq::empty());
            assert(sofar.union(links_to(node as int, all.take(0), nodes)) =~= sofar);
            while j < ids.len()
                invariant
                    j <= ids@.len(),
                    id_views(ids@) == all,
                    holds_nodes(graph@, nodes),
                    found.holds(
                        sofar.union(links_to(node as int, all.take(j as int), nodes)),
                        existing,
                    ),
                decreases ids@.len() - j,
            {
                let id = ids[j];
                let ghost here = links_to(node as int, all.take(j as int), nodes);
                assert(all[j as int] == id as int);
                assert(all.take(j + 1).drop_last() =~= all.take(j as int));
                assert(graph@.dom().contains(id) == nodes.dom().contains(id as int));
                if let Some(to) = graph.get(&id) {
                    found.add_link(node, *to, Ghost(sofar.union(here)), Ghost(existing));
                    assert(sofar.union(here).insert((node as int, *to as int)) =~= sofar.union(
                        here.insert((node as int, *to as int)),
                    ));
                }
                j += 1;
            }
            assert(all.take(j as int) =~= all);
            assert(sofar.union(links_to(node as int, all, nodes)) =~= links.union(
                by_name(k as int).union(links_to(node as int, all, nodes)),
            ));
        }
        k += 1;
    }
    assert(names.take(k as int) =~= names);
    seen_names
}

/// A number as a counter shows it, which stops at its largest value.
pub open spec fn counted(n: int) -> int {
    if n <= usize::MAX {
        n
    } else {
        usize::MAX as int
    }
}

/// Whether a pass found what there is to find: the links that are not there
/// yet, each once, and the numbers of what it saw.
pub open spec fn is_pass_over(
    stats: LinkerStats,
    pairs: Seq<(i64, i64)>,
    symbols: Seq<(Seq<char>, int)>,
    graph: Map<int, int>,
    existing: Set<(int, int)>,
    texts: Seq<Vec<Cell>>,
) -> bool {
    if symbols.len() == 0 {
        pairs.len() == 0 && stats == (LinkerStats {
            nodes_scanned: 0,
            candidates_seen: 0,
            mentions_added: 0,
        })
    } else {
        &&& pairs.no_duplicates()
        &&& pair_set(pairs) == links_from(texts, symbols, graph).difference(existing)
        &&& stats.nodes_scanned == texts.len()
        &&& stats.candidates_seen == counted(candidates(texts, different_names(symbols)))
        &&& stats.mentions_added == pairs.len()
    }
}

/// Without symbols there are no names, and the other way round.
proof fn lemma_no_names(symbols: Seq<(Seq<char>, int)>)
    ensures
        different_names(symbols).len() == 0 <==> symbols.len() == 0,
{
    if symbols.len() > 0 {
        lemma_named(symbols, 0);
    }
}

/// The new links from text nodes to the symbols that they mention, from the
/// rows that the database returned: `symbols` are (qualified name, symbol),
/// `graph_nodes` are (source reference, node), `links` are the links that are
/// there already (from, to), `texts` are (node, title, text).
pub fn link_mentions_bulk(
    symbols: &Vec<Vec<Cell>>,
    graph_nodes: &Vec<Vec<Cell>>,
    links: &Vec<Vec<Cell>>,
    texts: &Vec<Vec<Cell>>,
) -> (r: (LinkerStats, Vec<(i64, i64)>))
    ensures
        is_pass_over(
            r.0,
            r.1@,
            named_symbols(symbols@),
            symbol_nodes(graph_nodes@),
            linked_pairs(links@),
            texts@,
        ),
{
    let ghost all = named_symbols(symbols@);
    let ghost names = different_names(all);
    let ghost nodes = symbol_nodes(graph_nodes@);
    let ghost existing = linked_pairs(links@);
    let index = read_names(symbols);
    proof {
        lemma_no_names(all);
    }
    let mut found = Found { seen: HashSet::new(), pairs: Vec::new() };
    if index.names.len() == 0 {
        return (
            LinkerStats { nodes_scanned: 0, candidates_seen: 0, mentions_added: 0 },
            found.pairs,
        );
    }
    let graph = read_nodes(graph_nodes);
    found.seen = read_links(links);
    let mut seen_names: usize = 0;
    let mut i: usize = 0;
    assert(texts@.take(0) =~= Seq::empty());
    assert(links_from(texts@.take(0), all, nodes) =~= Set::empty());
    assert(existing.union(Set::empty()) =~= existing);
    assert(Set::<(int, int)>::empty().difference(existing) =~= Set::empty());
    while i < texts.len()
        invariant
            i <= texts@.len(),
            names == different_names(all),
            index.holds(all),
            holds_nodes(graph@, nodes),
            found.holds(links_from(texts@.take(i as int), all, nodes), existing),
            seen_names == counted(candidates(texts@.take(i as int), names)),
        decreases texts@.len() - i,
    {
        let row = &texts[i];
        assert(texts@.take(i + 1).drop_last() =~= texts@.take(i as int));
        if let Some(node) = cells::to_int(row, 0) {
            let title = cells::tuple_str(row, 1);
            let body = cells::tuple_str(row, 2);
            if text::chars_of(title.as_str()).len() > 0 || text::chars_of(body.as_str()).len()
                > 0 {
                let hay = text::cat3(title.as_str(), "\n", body.as_str());
                let ghost sofar = links_from(texts@.take(i as int), all, nodes);
                let n = link_node(
                    &mut found,
                    node,
                    hay.as_str(),
                    &index,
                    &graph,
                    Ghost(all),
                    Ghost(nodes),
                    Ghost(sofar),
                    Ghost(existing),
                );
                proof {
                    lemma_candidates_positive(texts@.take(i as int), names);
                }
                seen_names = seen_names.saturating_add(n);
            }
        }
        i += 1;
    }
    assert(texts@.take(i as int) =~= texts@);
    let stats = LinkerStats {
        nodes_scanned: texts.len(),
        candidates_seen: seen_names,
        mentions_added: found.pairs.len(),
    };
    (stats, found.pairs)
}

proof fn lemma_candidates_positive(texts: Seq<Vec<Cell>>, names: Seq<Seq<char>>)
    ensures
        0 <= candidates(texts, names),
    decreases texts.len(),
{
    if texts.len() > 0 {
        lemma_candidates_positive(texts.drop_last(), names);
        if let Some((_, hay)) = searched_text(texts.last()@) {
            lemma_names_found(hay, names);
        }
    }
}

proof fn lemma_names_found(hay: Seq<char>, names: Seq<Seq<char>>)
    ensures
        0 <= names_found(hay, names) <= names.len(),
    decreases names.len(),
{
    if names.len() > 0 {
        lemma_names_found(hay, names.drop_last());
    }
}

/// Once the new links of a pass are there, a second pass over the same rows
/// adds none.
pub proof fn second_pass_adds_nothing(
    first_stats: LinkerStats,
    first: Seq<(i64, i64)>,
    second_stats: LinkerStats,
    second: Seq<(i64, i64)>,
    symbols: Seq<(Seq<char>, int)>,
    graph: Map<int, int>,
    existing: Set<(int, int)>,
    texts: Seq<Vec<Cell>>,
)
    requires
        is_pass_over(first_stats, first, symbols, graph, existing, texts),
        is_pass_over(
            second_stats,
            second,
            symbols,
            graph,
            existing.union(pair_set(first)),
            texts,
        ),
    ensures
        second.len() == 0,
        second_stats.mentions_added == 0,
{
    if symbols.len() > 0 && second.len() > 0 {
        let p = second[0];
        lemma_pair_set(second, p.0, p.1);
        assert(second.contains(p));
        let pair = (p.0 as int, p.1 as int);
        assert(links_from(texts, symbols, graph).contains(pair));
        assert(existing.contains(pair) || pair_set(first).contains(pair));
    }
}

// ---------------------------------------------------------------------------
// The statements
// ---------------------------------------------------------------------------

/// A link as it stands in an `INSERT`.
pub open spec fn link_values(pair: (i64, i64)) -> Seq<char> {
    "("@ + decimal::integer(pair.0 as int) + ", "@ + decimal::integer(pair.1 as int)
        + ", 'MENTIONS', 1.0)"@
}

/// The statement that inserts some links.
pub open spec fn link_statement(pairs: Seq<(i64, i64)>) -> Seq<char> {
    "INSERT INTO _hdb_graph_edges (from_node, to_node, edge_kind, weight) VALUES "@
        + text::joined(Seq::new(pairs.len(), |i: int| link_values(pairs[i])), ", "@) + ";"@
}

/// The statements that insert some links.
pub open spec fn link_statements(pairs: Seq<(i64, i64)>) -> Seq<Seq<char>> {
    let p = statements::pieces(pairs, statements::ROWS_PER_STATEMENT as nat);
    Seq::new(p.len(), |i: int| link_statement(p[i]))
}

/// The statement that inserts the links `pairs[from..to]`.
fn render_links(pairs: &Vec<(i64, i64)>, from: usize, to: usize) -> (r: String)
    requires
        from <= to <= pairs@.len(),
    ensures
        r@ == link_statement(pairs@.subrange(from as int, to as int)),
{
    let mut values: Vec<String> = Vec::new();
    let mut i: usize = from;
    while i < to
        invariant
            from <= i <= to <= pairs@.len(),
            values@.len() == i - from,
            forall|j: int|
                0 <= j < values@.len() ==> (#[trigger] values@[j])@ == link_values(
                    pairs@[from + j],
                ),
        decreases to - i,
    {
        values.push(
            text::cat5(
                "(",
                decimal::signed_text(pairs[i].0).as_str(),
                ", ",
                decimal::signed_text(pairs[i].1).as_str(),
                ", 'MENTIONS', 1.0)",
            ),
        );
        i += 1;
    }
    let ghost some = pairs@.subrange(from as int, to as int);
    assert(text::views(values@).subrange(0, values@.len() as int) =~= Seq::new(
        some.len(),
        |i: int| link_values(some[i]),
    ));
    text::cat3(
        "INSERT INTO _hdb_graph_edges (from_node, to_node, edge_kind, weight) VALUES ",
        text::join(&values, 0, values.len(), ", ").as_str(),
        ";",
    )
}

/// The statements that insert some links.
pub fn mention_statements(pairs: &Vec<(i64, i64)>) -> (r: Vec<String>)
    ensures
        text::views(r@) == link_statements(pairs@),
{
    let ghost wanted = link_statements(pairs@);
    let mut out: Vec<String> = Vec::new();
    let mut from: usize = 0;
    assert(pairs@.skip(0) =~= pairs@);
    assert(text::views(out@) + link_statements(pairs@.skip(0)) =~= wanted);
    while from < pairs.len()
        invariant
            from <= pairs@.len(),
            wanted == text::views(out@) + link_statements(pairs@.skip(from as int)),
        decreases pairs@.len() - from,
    {
        let ghost before = out@;
        let ghost rest = pairs@.skip(from as int);
        let to = if pairs.len() - from > statements::ROWS_PER_STATEMENT {
            from + statements::ROWS_PER_STATEMENT
        } else {
            pairs.len()
        };
        out.push(render_links(pairs, from, to));
        proof {
            let n = statements::ROWS_PER_STATEMENT as nat;
            let first = pairs@.subrange(from as int, to as int);
            let p = statements::pieces(rest, n);
            let q = statements::pieces(pairs@.skip(to as int), n);
            if rest.len() <= n {
                assert(first =~= rest);
                assert(p =~= seq![first] + q);
            } else {
                assert(first =~= rest.take(n as int));
                assert(rest.skip(n as int) =~= pairs@.skip(to as int));
            }
            assert(text::views(out@) =~= text::views(before).push(link_statement(first)));
            assert(link_statements(rest) =~= seq![link_statement(first)] + link_statements(
                pairs@.skip(to as int),
            ));
            assert(text::views(out@) + link_statements(pairs@.skip(to as int)) =~= text::views(
                before,
            ) + link_statements(rest));
        }
        from = to;
    }
    assert(link_statements(pairs@.skip(from as int)) =~= Seq::empty());
    assert(text::views(out@) =~= wanted);
    out
}

/// What stands between brackets in a text, one bracket after the other.
pub open spec fn bracketed(s: Seq<char>) -> Seq<Seq<char>>
    decreases s.len(),
    when true
    via bracketed_decreases
{
    let open = text::index_of(s, '(');
    if open >= s.len() {
        Seq::empty()
    } else {
        let rest = s.skip(open + 1);
        let close = text::index_of(rest, ')');
        if close >= rest.len() {
            Seq::empty()
        } else {
            seq![rest.take(close)] + bracketed(rest.skip(close + 1))
        }
    }
}

#[via_fn]
proof fn bracketed_decreases(s: Seq<char>) {
    text::lemma_index_of(s, '(');
    text::lemma_index_of(s.skip(text::index_of(s, '(') + 1), ')');
}

/// The items of a list with commas, without the white space around them.
pub open spec fn listed(s: Seq<char>) -> Seq<Seq<char>> {
    text::split_at(s, ',').map_values(|item: Seq<char>| text::trimmed(item))
}

/// What an `INSERT` writes into the column `name` of its row `i`: the item of
/// the row that stands where `name` stands in the list of the columns.
pub open spec fn inserted(statement: Seq<char>, i: int, name: Seq<char>) -> Seq<char> {
    let lists = bracketed(statement);
    listed(lists[i + 1])[listed(lists[0]).index_of(name)]
}

/// The edges that an `INSERT` writes, as it says from which node to which.
pub open spec fn edges_of(statement: Seq<char>) -> Seq<(Option<int>, Option<int>)> {
    Seq::new(
        (bracketed(statement).len() - 1) as nat,
        |i: int|
            (
                decimal::integer_of(inserted(statement, i, "from_node"@)),
                decimal::integer_of(inserted(statement, i, "to_node"@)),
            ),
    )
}

/// The edges that some statements write, one statement after the other.
pub open spec fn edges_of_all(statements: Seq<Seq<char>>) -> Seq<(Option<int>, Option<int>)>
    decreases statements.len(),
{
    if statements.len() == 0 {
        Seq::empty()
    } else {
        edges_of(statements[0]) + edges_of_all(statements.skip(1))
    }
}

/// A text before the first bracket holds no brackets.
proof fn lemma_bracketed_after(a: Seq<char>, s: Seq<char>)
    requires
        !a.contains('('),
    ensures
        bracketed(a + s) == bracketed(s),
{
    let at = text::index_of(s, '(');
    text::lemma_index_of(s, '(');
    assert forall|j: int| 0 <= j < a.len() + at implies (a + s)[j] != '(' by {
        if j < a.len() {
            assert(a.contains(a[j]));
            assert((a + s)[j] == a[j]);
        } else {
            assert((a + s)[j] == s[j - a.len()]);
        }
    }
    if at < s.len() {
        assert((a + s)[a.len() + at] == s[at]);
        assert((a + s).skip(a.len() + at + 1) =~= s.skip(at + 1));
    }
    text::lemma_index_of_is(a + s, '(', a.len() + at);
}

/// What stands in the first brackets comes first.
proof fn lemma_bracketed_first(inner: Seq<char>, s: Seq<char>)
    requires
        !inner.contains(')'),
    ensures
        bracketed(seq!['('] + inner + seq![')'] + s) == seq![inner] + bracketed(s),
{
    let all = seq!['('] + inner + seq![')'] + s;
    text::lemma_index_of_is(all, '(', 0);
    let rest = all.skip(1);
    assert(rest =~= inner + seq![')'] + s);
    assert forall|j: int| 0 <= j < inner.len() implies rest[j] != ')' by {
        assert(inner.contains(inner[j]));
        assert(rest[j] == inner[j]);
    }
    assert(rest[inner.len() as int] == ')');
    text::lemma_index_of_is(rest, ')', inner.len() as int);
    assert(rest.take(inner.len() as int) =~= inner);
    assert(rest.skip(inner.len() as int + 1) =~= s);
}

/// A text that begins with a space is trimmed to what follows it.
proof fn lemma_after_space(s: Seq<char>)
    requires
        text::is_tight(s),
    ensures
        text::trimmed(seq![' '] + s) == s,
        text::trimmed(s) == s,
{
    let none = Seq::<char>::empty();
    assert(seq![' '] + s =~= seq![' '] + s + none);
    text::trimming_takes_the_outer_space(seq![' '], s, none);
    assert(s =~= none + s + none);
    text::trimming_takes_the_outer_space(none, s, none);
}

/// The items of a list of four.
proof fn lemma_listed(a: Seq<char>, b: Seq<char>, c: Seq<char>, d: Seq<char>)
    requires
        text::is_tight(a) && text::is_tight(b) && text::is_tight(c) && text::is_tight(d),
        !a.contains(',') && !b.contains(',') && !c.contains(',') && !d.contains(','),
    ensures
        listed(a + seq![',', ' '] + b + seq![',', ' '] + c + seq![',', ' '] + d) == seq![
            a,
            b,
            c,
            d,
        ],
{
    let space = seq![' '];
    let b1 = space + b;
    let c1 = space + c;
    let d1 = space + d;
    assert(!b1.contains(',') && !c1.contains(',') && !d1.contains(',')) by {
        assert forall|j: int| 0 <= j < b1.len() implies b1[j] != ',' by {
            if j > 0 {
                assert(b1[j] == b[j - 1]);
                assert(b.contains(b[j - 1]));
            }
        }
        assert forall|j: int| 0 <= j < c1.len() implies c1[j] != ',' by {
            if j > 0 {
                assert(c1[j] == c[j - 1]);
                assert(c.contains(c[j - 1]));
            }
        }
        assert forall|j: int| 0 <= j < d1.len() implies d1[j] != ',' by {
            if j > 0 {
                assert(d1[j] == d[j - 1]);
                assert(d.contains(d[j - 1]));
            }
        }
    }
    let s = a + seq![',', ' '] + b + seq![',', ' '] + c + seq![',', ' '] + d;
    let s3 = c1.push(',') + d1;
    let s2 = b1.push(',') + s3;
    assert(s =~= a.push(',') + s2);
    text::lemma_split_first(d1, ',', Seq::empty());
    text::lemma_split_first(c1, ',', d1);
    text::lemma_split_first(b1, ',', s3);
    text::lemma_split_first(a, ',', s2);
    assert(text::split_at(s, ',') =~= seq![a, b1, c1, d1]);
    lemma_after_space(a);
    lemma_after_space(b);
    lemma_after_space(c);
    lemma_after_space(d);
    assert(listed(s) =~= seq![a, b, c, d]);
}

/// What stands between the brackets of a link.
spec fn link_items(pair: (i64, i64)) -> Seq<char> {
    decimal::integer(pair.0 as int) + seq![',', ' '] + decimal::integer(pair.1 as int) + seq![
        ',',
        ' ',
    ] + "'MENTIONS'"@ + seq![',', ' '] + "1.0"@
}

/// A link stands in brackets, and its items are its two nodes, the kind and
/// the weight.
proof fn lemma_link_values(pair: (i64, i64))
    ensures
        link_values(pair) == seq!['('] + link_items(pair) + seq![')'],
        !link_items(pair).contains(')'),
        listed(link_items(pair)) == seq![
            decimal::integer(pair.0 as int),
            decimal::integer(pair.1 as int),
            "'MENTIONS'"@,
            "1.0"@,
        ],
{
    reveal_strlit("(");
    reveal_strlit(", ");
    reveal_strlit(", 'MENTIONS', 1.0)");
    reveal_strlit("'MENTIONS'");
    reveal_strlit("1.0");
    let a = decimal::integer(pair.0 as int);
    let b = decimal::integer(pair.1 as int);
    let kind = "'MENTIONS'"@;
    let weight = "1.0"@;
    decimal::decimal_texts_read_back(pair.0 as int);
    decimal::decimal_texts_read_back(pair.1 as int);
    assert(", 'MENTIONS', 1.0)"@ =~= seq![',', ' '] + kind + seq![',', ' '] + weight + seq![')']);
    assert(link_values(pair) =~= seq!['('] + link_items(pair) + seq![')']);
    assert(a[0] != ' ' && a[a.len() - 1] != ' ');
    assert(text::is_tight(a) && text::is_tight(b));
    lemma_listed(a, b, kind, weight);
    let items = link_items(pair);
    assert forall|j: int| 0 <= j < items.len() implies items[j] != ')' by {
        let p = a.len() as int;
        let q = p + 2 + b.len();
        if j < p {
            assert(items[j] == a[j]);
        } else if j < p + 2 {
            assert(items[j] == seq![',', ' '][j - p]);
        } else if j < q {
            assert(items[j] == b[j - p - 2]);
        } else if j < q + 2 {
            assert(items[j] == seq![',', ' '][j - q]);
        } else if j < q + 12 {
            assert(items[j] == kind[j - q - 2]);
        } else if j < q + 14 {
            assert(items[j] == seq![',', ' '][j - q - 12]);
        } else {
            assert(items[j] == weight[j - q - 14]);
        }
    }
}

/// The brackets of some links, one link after the other.
proof fn lemma_bracketed_links(pairs: Seq<(i64, i64)>)
    requires
        pairs.len() > 0,
    ensures
        bracketed(
            text::joined(Seq::new(pairs.len(), |i: int| link_values(pairs[i])), ", "@) + ";"@,
        ) == Seq::new(pairs.len(), |i: int| link_items(pairs[i])),
    decreases pairs.len(),
{
    reveal_strlit(", ");
    reveal_strlit(";");
    let parts = Seq::new(pairs.len(), |i: int| link_values(pairs[i]));
    let first = link_items(pairs[0]);
    lemma_link_values(pairs[0]);
    assert(parts[0] == link_values(pairs[0]));
    if pairs.len() == 1 {
        let end = ";"@;
        assert(end + Seq::<char>::empty() =~= end);
        assert(!end.contains('('));
        lemma_bracketed_after(end, Seq::empty());
        assert(bracketed(Seq::<char>::empty()) =~= Seq::empty());
        lemma_bracketed_first(first, end);
        assert(bracketed(text::joined(parts, ", "@) + end) =~= Seq::new(
            pairs.len(),
            |i: int| link_items(pairs[i]),
        ));
    } else {
        let rest = pairs.skip(1);
        let others = Seq::new(rest.len(), |i: int| link_values(rest[i]));
        assert(parts.skip(1) =~= others);
        lemma_bracketed_links(rest);
        text::lemma_joined_first(parts, ", "@);
        let tail = text::joined(others, ", "@) + ";"@;
        assert(text::joined(parts, ", "@) + ";"@ =~= seq!['('] + first + seq![')'] + (", "@
            + tail));
        lemma_bracketed_first(first, ", "@ + tail);
        assert(!", "@.contains('('));
        lemma_bracketed_after(", "@, tail);
        assert(seq![first] + Seq::new(rest.len(), |i: int| link_items(rest[i])) =~= Seq::new(
            pairs.len(),
            |i: int| link_items(pairs[i]),
        ));
    }
}

/// The lists in the statement that inserts some links: that of the columns,
/// then the links.
proof fn lemma_statement_lists(pairs: Seq<(i64, i64)>)
    requires
        pairs.len() > 0,
    ensures
        ({
            let lists = bracketed(link_statement(pairs));
            &&& lists.len() == pairs.len() + 1
            &&& listed(lists[0]) == seq!["from_node"@, "to_node"@, "edge_kind"@, "weight"@]
            &&& forall|i: int|
                0 <= i < pairs.len() ==> #[trigger] lists[i + 1] == link_items(pairs[i])
        }),
{
    reveal_strlit("INSERT INTO _hdb_graph_edges (from_node, to_node, edge_kind, weight) VALUES ");
    reveal_strlit("INSERT INTO _hdb_graph_edges ");
    reveal_strlit("from_node");
    reveal_strlit("to_node");
    reveal_strlit("edge_kind");
    reveal_strlit("weight");
    reveal_strlit(" VALUES ");
    let head = "INSERT INTO _hdb_graph_edges "@;
    let comma = seq![',', ' '];
    let columns = "from_node"@ + comma + "to_node"@ + comma + "edge_kind"@ + comma + "weight"@;
    let values = " VALUES "@;
    assert("INSERT INTO _hdb_graph_edges (from_node, to_node, edge_kind, weight) VALUES "@ =~= head
        + seq!['('] + columns + seq![')'] + values);
    let tail = text::joined(Seq::new(pairs.len(), |i: int| link_values(pairs[i])), ", "@) + ";"@;
    assert(link_statement(pairs) =~= head + (seq!['('] + columns + seq![')'] + (values + tail)));
    assert(!head.contains('('));
    assert(!columns.contains(')'));
    assert(!values.contains('('));
    lemma_bracketed_after(head, seq!['('] + columns + seq![')'] + (values + tail));
    lemma_bracketed_first(columns, values + tail);
    lemma_bracketed_after(values, tail);
    lemma_bracketed_links(pairs);
    lemma_listed("from_node"@, "to_node"@, "edge_kind"@, "weight"@);
    let lists = bracketed(link_statement(pairs));
    assert forall|i: int| 0 <= i < pairs.len() implies #[trigger] lists[i + 1] == link_items(
        pairs[i],
    ) by {
        assert(lists[i + 1] == Seq::new(pairs.len(), |k: int| link_items(pairs[k]))[i]);
    }
}

/// The statement that inserts some links says so: it writes to the edges of
/// the graph, and its rows are the links, in their order, each from the first
/// node of the link to the second, with the kind of a mention.
pub proof fn statement_inserts_the_links(pairs: Seq<(i64, i64)>, i: int)
    requires
        0 <= i < pairs.len(),
    ensures
        text::begins_with(link_statement(pairs), "INSERT INTO _hdb_graph_edges ("@),
        bracketed(link_statement(pairs)).len() == pairs.len() + 1,
        decimal::integer_of(inserted(link_statement(pairs), i, "from_node"@)) == Some(
            pairs[i].0 as int,
        ),
        decimal::integer_of(inserted(link_statement(pairs), i, "to_node"@)) == Some(
            pairs[i].1 as int,
        ),
        inserted(link_statement(pairs), i, "edge_kind"@) == "'MENTIONS'"@,
        inserted(link_statement(pairs), i, "weight"@) == "1.0"@,
{
    lemma_statement_lists(pairs);
    lemma_link_values(pairs[i]);
    decimal::decimal_texts_read_back(pairs[i].0 as int);
    decimal::decimal_texts_read_back(pairs[i].1 as int);
    reveal_strlit("from_node");
    reveal_strlit("to_node");
    reveal_strlit("edge_kind");
    reveal_strlit("weight");
    let columns = listed(bracketed(link_statement(pairs))[0]);
    assert(columns.len() == 4);
    assert("from_node"@.len() == 9 && "to_node"@.len() == 7 && "edge_kind"@.len() == 9
        && "weight"@.len() == 6);
    assert("from_node"@[0] != "edge_kind"@[0]);
    assert(columns[0] == "from_node"@ && columns[1] == "to_node"@ && columns[2] == "edge_kind"@
        && columns[3] == "weight"@);
    assert(columns.index_of("from_node"@) == 0);
    assert(columns.index_of("to_node"@) == 1);
    assert(columns.index_of("edge_kind"@) == 2);
    assert(columns.index_of("weight"@) == 3);
    let items = listed(bracketed(link_statement(pairs))[i + 1]);
    assert(items == listed(link_items(pairs[i])));
    reveal_strlit("INSERT INTO _hdb_graph_edges (from_node, to_node, edge_kind, weight) VALUES ");
    reveal_strlit("INSERT INTO _hdb_graph_edges (");
    assert(link_statement(pairs).take(30) =~= "INSERT INTO _hdb_graph_edges ("@);
}

/// Reading the statements back gives the links: what they write into the
/// columns `from_node` and `to_node` are the links, in their order.
pub proof fn statements_read_back_as_the_links(pairs: Seq<(i64, i64)>)
    ensures
        edges_of_all(link_statements(pairs)).len() == pairs.len(),
        forall|i: int|
            0 <= i < pairs.len() ==> #[trigger] edges_of_all(link_statements(pairs))[i] == (
                Some(pairs[i].0 as int),
                Some(pairs[i].1 as int),
            ),
    decreases pairs.len(),
{
    let n = statements::ROWS_PER_STATEMENT as nat;
    let all = link_statements(pairs);
    if pairs.len() > 0 {
        let cut: int = if pairs.len() <= n {
            pairs.len() as int
        } else {
            n as int
        };
        let first = pairs.take(cut);
        let rest = pairs.skip(cut);
        if pairs.len() <= n {
            assert(first =~= pairs);
            assert(statements::pieces(rest, n) =~= Seq::empty());
        }
        assert(statements::pieces(pairs, n) =~= seq![first] + statements::pieces(rest, n));
        assert(all =~= seq![link_statement(first)] + link_statements(rest));
        assert(all.skip(1) =~= link_statements(rest));
        lemma_statement_lists(first);
        let here = edges_of(link_statement(first));
        assert forall|i: int| 0 <= i < cut implies #[trigger] here[i] == (
            Some(pairs[i].0 as int),
            Some(pairs[i].1 as int),
        ) by {
            statement_inserts_the_links(first, i);
            assert(first[i] == pairs[i]);
        }
        statements_read_back_as_the_links(rest);
        assert forall|i: int| 0 <= i < pairs.len() implies #[trigger] edges_of_all(all)[i] == (
            Some(pairs[i].0 as int),
            Some(pairs[i].1 as int),
        ) by {
            if i < cut {
                assert(edges_of_all(all)[i] == here[i]);
            } else {
                assert(edges_of_all(all)[i] == edges_of_all(link_statements(rest))[i - cut]);
                assert(rest[i - cut] == pairs[i]);
            }
        }
    }
}

/// The links that are there are those of the rows: from the node in the first
/// column to the node in the second.
pub proof fn linked_pairs_are_those_of_the_rows(rows: Seq<Vec<Cell>>, from: int, to: int)
    ensures
        linked_pairs(rows).contains((from, to)) <==> exists|i: int|
            0 <= i < rows.len() && cells::id_at((#[trigger] rows[i])@, 0) == Some(from)
                && cells::id_at(rows[i]@, 1) == Some(to),
    decreases rows.len(),
{
    if rows.len() > 0 {
        let head = rows.drop_last();
        linked_pairs_are_those_of_the_rows(head, from, to);
        if linked_pairs(head).contains((from, to)) {
            let i = choose|i: int|
                0 <= i < head.len() && cells::id_at((#[trigger] head[i])@, 0) == Some(from)
                    && cells::id_at(head[i]@, 1) == Some(to);
            assert(rows[i] == head[i]);
        } else if linked_pairs(rows).contains((from, to)) {
            assert(rows[rows.len() - 1] == rows.last());
        }
        if exists|i: int|
            0 <= i < rows.len() && cells::id_at((#[trigger] rows[i])@, 0) == Some(from)
                && cells::id_at(rows[i]@, 1) == Some(to) {
            let i = choose|i: int|
                0 <= i < rows.len() && cells::id_at((#[trigger] rows[i])@, 0) == Some(from)
                    && cells::id_at(rows[i]@, 1) == Some(to);
            if i < head.len() {
                assert(head[i] == rows[i]);
            }
        }
    }
}

/// The set of some pairs holds each of them and nothing else.
proof fn lemma_pair_set_holds(pairs: Seq<(i64, i64)>, from: int, to: int)
    ensures
        pair_set(pairs).contains((from, to)) <==> exists|i: int|
            0 <= i < pairs.len() && (#[trigger] pairs[i]).0 == from && pairs[i].1 == to,
    decreases pairs.len(),
{
    if pairs.len() > 0 {
        let head = pairs.drop_last();
        lemma_pair_set_holds(head, from, to);
        if pair_set(head).contains((from, to)) {
            let i = choose|i: int|
                0 <= i < head.len() && (#[trigger] head[i]).0 == from && head[i].1 == to;
            assert(pairs[i] == head[i]);
        } else if pair_set(pairs).contains((from, to)) {
            assert(pairs[pairs.len() - 1] == pairs.last());
        }
        if exists|i: int|
            0 <= i < pairs.len() && (#[trigger] pairs[i]).0 == from && pairs[i].1 == to {
            let i = choose|i: int|
                0 <= i < pairs.len() && (#[trigger] pairs[i]).0 == from && pairs[i].1 == to;
            if i < head.len() {
                assert(head[i] == pairs[i]);
            }
        }
    }
}

/// Once the statements of a pass have run, a second pass over the same rows
/// adds nothing: it finds, in the rows of the edges, every link that the
/// statements wrote.
pub proof fn second_pass_recognises_what_was_written(
    first_stats: LinkerStats,
    first: Seq<(i64, i64)>,
    second_stats: LinkerStats,
    second: Seq<(i64, i64)>,
    symbols: Seq<(Seq<char>, int)>,
    graph: Map<int, int>,
    edges_before: Seq<Vec<Cell>>,
    edges_after: Seq<Vec<Cell>>,
    texts: Seq<Vec<Cell>>,
)
    requires
        is_pass_over(first_stats, first, symbols, graph, linked_pairs(edges_before), texts),
        is_pass_over(second_stats, second, symbols, graph, linked_pairs(edges_after), texts),
        forall|from: int, to: int|
            #![trigger linked_pairs(edges_after).contains((from, to))]
            linked_pairs(edges_after).contains((from, to)) <==> linked_pairs(
                edges_before,
            ).contains((from, to)) || edges_of_all(link_statements(first)).contains(
                (Some(from), Some(to)),
            ),
    ensures
        second.len() == 0,
        second_stats.mentions_added == 0,
{
    let written = edges_of_all(link_statements(first));
    let before = linked_pairs(edges_before);
    let after = linked_pairs(edges_after);
    statements_read_back_as_the_links(first);
    assert forall|p: (int, int)| after.contains(p) == before.union(pair_set(first)).contains(p) by {
        let (from, to) = p;
        assert(after.contains((from, to)) == after.contains(p));
        lemma_pair_set_holds(first, from, to);
        if written.contains((Some(from), Some(to))) {
            let i = written.index_of((Some(from), Some(to)));
            assert(written[i] == (Some(from), Some(to)));
            assert(first[i].0 == from && first[i].1 == to);
        }
        if pair_set(first).contains((from, to)) {
            let i = choose|i: int|
                0 <= i < first.len() && (#[trigger] first[i]).0 == from && first[i].1 == to;
            assert(written[i] == (Some(from), Some(to)));
        }
    }
    assert(after =~= before.union(pair_set(first)));
    second_pass_adds_nothing(
        first_stats,
        first,
        second_stats,
        second,
        symbols,
        graph,
        before,
        texts,
    );
}

/// The symbols are those of the rows with a name and a symbol.
pub proof fn named_symbols_are_those_of_the_rows(rows: Seq<Vec<Cell>>, name: Seq<char>, id: int)
    ensures
        named_symbols(rows).contains((name, id)) <==> exists|i: int|
            0 <= i < rows.len() && cells::has_text_at((#[trigger] rows[i])@, 0) && cells::text_at(
                rows[i]@,
                0,
            ) == name && cells::id_at(rows[i]@, 1) == Some(id),
    decreases rows.len(),
{
    let all = named_symbols(rows);
    if rows.len() > 0 {
        let head = rows.drop_last();
        let before = named_symbols(head);
        named_symbols_are_those_of_the_rows(head, name, id);
        if all.contains((name, id)) {
            let k = all.index_of((name, id));
            if k < before.len() {
                assert(before[k] == (name, id));
                let i = choose|i: int|
                    0 <= i < head.len() && cells::has_text_at((#[trigger] head[i])@, 0)
                        && cells::text_at(head[i]@, 0) == name && cells::id_at(head[i]@, 1)
                        == Some(id);
                assert(rows[i] == head[i]);
            } else {
                assert(rows[rows.len() - 1] == rows.last());
            }
        }
        if exists|i: int|
            0 <= i < rows.len() && cells::has_text_at((#[trigger] rows[i])@, 0) && cells::text_at(
                rows[i]@,
                0,
            ) == name && cells::id_at(rows[i]@, 1) == Some(id) {
            let i = choose|i: int|
                0 <= i < rows.len() && cells::has_text_at((#[trigger] rows[i])@, 0)
                    && cells::text_at(rows[i]@, 0) == name && cells::id_at(rows[i]@, 1) == Some(id);
            if i < head.len() {
                assert(head[i] == rows[i]);
                let k = before.index_of((name, id));
                assert(all[k] == (name, id));
            } else {
                assert(all[all.len() - 1] == (name, id));
            }
        }
    }
}

/// The graph node of a symbol is that of the last row whose reference writes
/// the symbol in decimal.
pub proof fn last_node_of_a_symbol_counts(rows: Seq<Vec<Cell>>, symbol: int, node: int, i: int)
    requires
        0 <= i < rows.len(),
        i64::MIN <= symbol <= i64::MAX,
        cells::has_text_at(rows[i]@, 0),
        cells::text_at(rows[i]@, 0) == "code_symbol:"@ + decimal::integer(symbol),
        cells::id_at(rows[i]@, 1) == Some(node),
        forall|j: int|
            i < j < rows.len() ==> referenced_symbol(cells::text_at((#[trigger] rows[j])@, 0))
                != Some(symbol),
    ensures
        symbol_nodes(rows).dom().contains(symbol),
        symbol_nodes(rows)[symbol] == node,
    decreases rows.len(),
{
    if i < rows.len() - 1 {
        let head = rows.drop_last();
        assert(head[i] == rows[i]);
        assert forall|j: int|
            i < j < head.len() implies referenced_symbol(
            cells::text_at((#[trigger] head[j])@, 0),
        ) != Some(symbol) by {
            assert(head[j] == rows[j]);
        }
        assert(rows.last() == rows[rows.len() - 1]);
        last_node_of_a_symbol_counts(head, symbol, node, i);
    } else {
        let prefix = "code_symbol:"@;
        let reference = cells::text_at(rows[i]@, 0);
        assert(reference.take(prefix.len() as int) =~= prefix);
        assert(reference.skip(prefix.len() as int) =~= decimal::integer(symbol));
        decimal::decimal_texts_read_back(symbol);
    }
}

/// A name that stands in the title or in the text of a text node, flanked by
/// no name character, makes the node mention the symbols of the name.
pub proof fn names_are_searched_in_title_and_text(
    row: Seq<Cell>,
    symbol: (Seq<char>, int),
    graph: Map<int, int>,
    node: int,
    title: Seq<char>,
    body: Seq<char>,
    p: int,
)
    requires
        cells::id_at(row, 0) == Some(node),
        cells::text_at(row, 1) == title,
        cells::text_at(row, 2) == body,
        symbol.0.len() > 0,
        forall|i: int| 0 <= i < symbol.0.len() ==> is_ident(#[trigger] symbol.0[i]),
        (text::occurs_at(title, symbol.0, p) && stands_alone(title, p, p + symbol.0.len())) || (
        text::occurs_at(body, symbol.0, p) && stands_alone(body, p, p + symbol.0.len())),
        graph.dom().contains(symbol.1),
    ensures
        mentions(row, symbol, graph, node, graph[symbol.1]),
{
    reveal_strlit("\n");
    let name = symbol.0;
    let hay = title + "\n"@ + body;
    assert(hay.len() == title.len() + 1 + body.len());
    assert(hay[title.len() as int] == '\n');
    if text::occurs_at(title, name, p) && stands_alone(title, p, p + name.len()) {
        assert(hay.subrange(p, p + name.len()) =~= title.subrange(p, p + name.len()));
        if p > 0 {
            assert(hay[p - 1] == title[p - 1]);
        }
        if p + name.len() < title.len() {
            assert(hay[p + name.len()] == title[p + name.len()]);
        }
        standing_name_is_found(hay, name, p);
    } else {
        let at = title.len() + 1 + p;
        assert(hay.subrange(at, at + name.len()) =~= body.subrange(p, p + name.len()));
        if p > 0 {
            assert(hay[at - 1] == body[p - 1]);
        }
        if p + name.len() < body.len() {
            assert(hay[at + name.len()] == body[p + name.len()]);
        }
        standing_name_is_found(hay, name, at);
    }
}

} // verus!
