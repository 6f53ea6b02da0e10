//! File cards: the symbols of each file, and those with the longest signatures.

use vstd::prelude::*;
use vstd::string::*;

use crate::cells;
use crate::cells::Cell;
use crate::distill;
use crate::json;
use crate::json::Json;
use crate::json::JsonView;
use crate::ranking;
use crate::ranking::RankKey;
use crate::statements;
use crate::statements::SqlValue;
use crate::strmap::StrMap;
use crate::text;
use crate::utf8;

use std::collections::HashMap;

verus! {

broadcast use vstd::std_specs::hash::group_hash_axioms;

/// The number of top symbols in a file card.
pub const TOP_SYMBOLS: usize = 10;

/// The symbols of a file.
pub struct FileGroup {
    pub path: String,
    pub symbols: Vec<i64>,
}

/// The symbols in some rows (symbol, path), in their order.
pub open spec fn symbol_ids(rows: Seq<Vec<Cell>>) -> Seq<int>
    decreases rows.len(),
{
    if rows.len() == 0 {
        Seq::empty()
    } else {
        let before = symbol_ids(rows.drop_last());
        match cells::int_at(rows.last()@, 0) {
            Some(id) => before.push(id),
            None => before,
        }
    }
}

/// The path of each symbol; of two rows with one symbol the later counts.
pub open spec fn owners(rows: Seq<Vec<Cell>>) -> Map<int, Seq<char>>
    decreases rows.len(),
{
    if rows.len() == 0 {
        Map::empty()
    } else {
        let before = owners(rows.drop_last());
        match cells::int_at(rows.last()@, 0) {
            Some(id) => before.insert(id, cells::text_at(rows.last()@, 1)),
            None => before,
        }
    }
}

/// Those of some symbols that belong to a file, in their order.
pub open spec fn symbols_in(ids: Seq<int>, owner: Map<int, Seq<char>>, path: Seq<char>) -> Seq<int>
    decreases ids.len(),
{
    if ids.len() == 0 {
        Seq::empty()
    } else {
        let before = symbols_in(ids.drop_last(), owner, path);
        if owner[ids.last()] == path {
            before.push(ids.last())
        } else {
            before
        }
    }
}

/// The integers of a list.
pub open spec fn ints(v: Seq<i64>) -> Seq<int> {
    Seq::new(v.len(), |i: int| v[i] as int)
}

/// The paths of some groups.
pub open spec fn group_paths(groups: Seq<FileGroup>) -> Seq<Seq<char>> {
    Seq::new(groups.len(), |i: int| groups[i].path@)
}

/// Whether `groups` divides some symbols by their files: each file once, and
/// each with its symbols in their order.
pub open spec fn divides(
    groups: Seq<FileGroup>,
    ids: Seq<int>,
    owner: Map<int, Seq<char>>,
) -> bool {
    &&& group_paths(groups).no_duplicates()
    &&& forall|k: int|
        0 <= k < groups.len() ==> ints((#[trigger] groups[k]).symbols@) == symbols_in(
            ids,
            owner,
            groups[k].path@,
        ) && groups[k].symbols@.len() > 0
    &&& forall|i: int|
        0 <= i < ids.len() ==> group_paths(groups).contains(owner[#[trigger] ids[i]])
}

/// Every symbol in the rows has a path.
proof fn lemma_owned(rows: Seq<Vec<Cell>>, i: int)
    requires
        0 <= i < symbol_ids(rows).len(),
    ensures
        owners(rows).dom().contains(symbol_ids(rows)[i]),
    decreases rows.len(),
{
    let rest = rows.drop_last();
    if i < symbol_ids(rest).len() {
        lemma_owned(rest, i);
    }
}

/// The symbols in some rows, in their order.
pub fn read_symbol_ids(rows: &Vec<Vec<Cell>>) -> (r: Vec<i64>)
    ensures
        ints(r@) == symbol_ids(rows@),
{
    let mut out: Vec<i64> = Vec::new();
    let mut i: usize = 0;
    assert(rows@.take(0) =~= Seq::empty());
    assert(ints(out@) =~= Seq::empty());
    while i < rows.len()
        invariant
            i <= rows@.len(),
            ints(out@) == symbol_ids(rows@.take(i as int)),
        decreases rows@.len() - i,
    {
        let ghost before = out@;
        assert(rows@.take(i + 1).drop_last() =~= rows@.take(i as int));
        if let Some(id) = cells::tuple_int(&rows[i], 0) {
            out.push(id);
            assert(ints(out@) =~= ints(before).push(id as int));
        }
        i += 1;
    }
    assert(rows@.take(i as int) =~= rows@);
    out
}

/// Whether a map holds the path of each symbol.
pub open spec fn holds_owners(m: Map<i64, String>, table: Map<int, Seq<char>>) -> bool {
    distill::holds_paths(m, table)
}

/// The path of each symbol.
fn read_owners(rows: &Vec<Vec<Cell>>) -> (r: HashMap<i64, String>)
    ensures
        holds_owners(r@, owners(rows@)),
{
    let mut out: HashMap<i64, String> = HashMap::new();
    let mut i: usize = 0;
    assert(rows@.take(0) =~= Seq::empty());
    while i < rows.len()
        invariant
            i <= rows@.len(),
            holds_owners(out@, owners(rows@.take(i as int))),
        decreases rows@.len() - i,
    {
        assert(rows@.take(i + 1).drop_last() =~= rows@.take(i as int));
        if let Some(id) = cells::tuple_int(&rows[i], 0) {
            out.insert(id, cells::tuple_str(&rows[i], 1));
        }
        i += 1;
    }
    assert(rows@.take(i as int) =~= rows@);
    out
}

/// A file to which none of some symbols belongs has none of them.
proof fn lemma_no_symbols(ids: Seq<int>, owner: Map<int, Seq<char>>, path: Seq<char>)
    requires
        forall|i: int| 0 <= i < ids.len() ==> owner[#[trigger] ids[i]] != path,
    ensures
        symbols_in(ids, owner, path) == Seq::<int>::empty(),
    decreases ids.len(),
{
    if ids.len() > 0 {
        let rest = ids.drop_last();
        assert forall|i: int| 0 <= i < rest.len() implies owner[#[trigger] rest[i]] != path by {
            assert(rest[i] == ids[i]);
        }
        assert(ids[ids.len() - 1] == ids.last());
        lemma_no_symbols(rest, owner, path);
    }
}

/// One more symbol goes to the group of its file.
proof fn lemma_divides_next(
    before: Seq<FileGroup>,
    after: Seq<FileGroup>,
    ids: Seq<int>,
    owner: Map<int, Seq<char>>,
    id: i64,
    k: int,
)
    requires
        divides(before, ids, owner),
        0 <= k <= before.len(),
        k < before.len() ==> {
            &&& before[k].path@ == owner[id as int]
            &&& after.len() == before.len()
            &&& after[k].path@ == before[k].path@
            &&& after[k].symbols@ == before[k].symbols@.push(id)
        },
        k == before.len() ==> {
            &&& !group_paths(before).contains(owner[id as int])
            &&& after.len() == before.len() + 1
            &&& after[k].path@ == owner[id as int]
            &&& after[k].symbols@ == seq![id]
        },
        forall|j: int|
            0 <= j < before.len() && j != k ==> (#[trigger] after[j]).path@ == before[j].path@
                && after[j].symbols@ == before[j].symbols@,
    ensures
        divides(after, ids.push(id as int), owner),
{
    let more = ids.push(id as int);
    let path = owner[id as int];
    assert(more.drop_last() =~= ids);
    let old_paths = group_paths(before);
    let new_paths = group_paths(after);
    assert forall|j: int| 0 <= j < before.len() implies #[trigger] new_paths[j] == old_paths[j] by {
        if j != k {
            assert(after[j].path@ == before[j].path@);
        }
    }
    if k == before.len() {
        assert forall|i: int| 0 <= i < ids.len() implies owner[#[trigger] ids[i]] != path by {
            assert(old_paths.contains(owner[ids[i]]));
        }
        lemma_no_symbols(ids, owner, path);
        assert(new_paths =~= old_paths.push(path));
    } else {
        assert(new_paths =~= old_paths);
        assert(old_paths[k] == path);
    }
    assert(new_paths.no_duplicates()) by {
        assert forall|i: int, j: int|
            0 <= i < new_paths.len() && 0 <= j < new_paths.len() && i != j implies new_paths[i]
            != new_paths[j] by {
            if i < before.len() && j < before.len() {
                assert(old_paths[i] != old_paths[j]);
            } else if i < before.len() {
                assert(old_paths.contains(old_paths[i]));
            } else {
                assert(old_paths.contains(old_paths[j]));
            }
        }
    }
    assert forall|j: int| 0 <= j < after.len() implies ints((#[trigger] after[j]).symbols@)
        == symbols_in(more, owner, after[j].path@) && after[j].symbols@.len() > 0 by {
        if j == k {
            if k < before.len() {
                assert(ints(before[k].symbols@) == symbols_in(ids, owner, path));
                assert(ints(after[k].symbols@) =~= ints(before[k].symbols@).push(id as int));
            } else {
                assert(ints(after[k].symbols@) =~= Seq::<int>::empty().push(id as int));
            }
        } else {
            assert(ints(before[j].symbols@) == symbols_in(ids, owner, before[j].path@));
            assert(new_paths[j] != new_paths[k]);
        }
    }
    assert forall|i: int| 0 <= i < more.len() implies new_paths.contains(
        owner[#[trigger] more[i]],
    ) by {
        if i < ids.len() {
            assert(more[i] == ids[i]);
            let j = choose|j: int| 0 <= j < old_paths.len() && old_paths[j] == owner[ids[i]];
            assert(new_paths[j] == owner[ids[i]]);
        } else {
            assert(new_paths[k] == path);
        }
    }
}

/// The symbols of each file, from the rows (symbol, path).
pub fn group_by_file(rows: &Vec<Vec<Cell>>) -> (r: Vec<FileGroup>)
    ensures
        divides(r@, symbol_ids(rows@), owners(rows@)),
{
    let ids = read_symbol_ids(rows);
    let paths = read_owners(rows);
    let ghost all = symbol_ids(rows@);
    let ghost owner = owners(rows@);
    let mut index: StrMap<()> = StrMap::new();
    let mut groups: Vec<FileGroup> = Vec::new();
    let mut i: usize = 0;
    assert(all.take(0) =~= Seq::empty());
    assert(group_paths(groups@) =~= index.order());
    while i < ids.len()
        invariant
            i <= ids@.len(),
            all == symbol_ids(rows@),
            owner == owners(rows@),
            ints(ids@) == all,
            holds_owners(paths@, owner),
            index.sound(),
            group_paths(groups@) == index.order(),
            divides(groups@, all.take(i as int), owner),
        decreases ids@.len() - i,
    {
        let id = ids[i];
        proof {
            assert(all[i as int] == id as int);
            lemma_owned(rows@, i as int);
            assert(all.take(i + 1) =~= all.take(i as int).push(id as int));
            assert(paths@.dom().contains(id));
        }
        if let Some(path) = paths.get(&id) {
            let ghost before = groups@;
            match index.find(path.as_str()) {
                Some(k) => {
                    assert(group_paths(before)[k as int] == path@);
                    groups[k].symbols.push(id);
                    proof {
                        lemma_divides_next(
                            before,
                            groups@,
                            all.take(i as int),
                            owner,
                            id,
                            k as int,
                        );
                        assert(group_paths(groups@) =~= group_paths(before));
                    }
                },
                None => {
                    index.insert(path.as_str(), ());
                    let mut symbols: Vec<i64> = Vec::new();
                    symbols.push(id);
                    groups.push(FileGroup { path: path.clone(), symbols });
                    proof {
                        lemma_divides_next(
                            before,
                            groups@,
                            all.take(i as int),
                            owner,
                            id,
                            before.len() as int,
                        );
                        assert(group_paths(groups@) =~= group_paths(before).push(path@));
                    }
                },
            }
        }
        i += 1;
    }
    assert(all.take(i as int) =~= all);
    groups
}

/// The calls in some rows (caller, callee); rows without both are left out.
pub open spec fn calls(rows: Seq<Vec<Cell>>) -> Seq<(int, int)>
    decreases rows.len(),
{
    if rows.len() == 0 {
        Seq::empty()
    } else {
        let before = calls(rows.drop_last());
        match (cells::int_at(rows.last()@, 0), cells::int_at(rows.last()@, 1)) {
            (Some(from), Some(to)) => before.push((from, to)),
            _ => before,
        }
    }
}

/// The calls in some rows (caller, callee), in their order.
pub fn call_edges(rows: &Vec<Vec<Cell>>) -> (r: Vec<(i64, i64)>)
    ensures
        Seq::new(r@.len(), |i: int| (r@[i].0 as int, r@[i].1 as int)) == calls(rows@),
{
    let mut out: Vec<(i64, i64)> = Vec::new();
    let mut i: usize = 0;
    assert(rows@.take(0) =~= Seq::empty());
    assert(Seq::new(out@.len(), |k: int| (out@[k].0 as int, out@[k].1 as int)) =~= Seq::empty());
    while i < rows.len()
        invariant
            i <= rows@.len(),
            Seq::new(out@.len(), |k: int| (out@[k].0 as int, out@[k].1 as int)) == calls(
                rows@.take(i as int),
            ),
        decreases rows@.len() - i,
    {
        let ghost before = out@;
        assert(rows@.take(i + 1).drop_last() =~= rows@.take(i as int));
        if let Some(from) = cells::tuple_int(&rows[i], 0) {
            if let Some(to) = cells::tuple_int(&rows[i], 1) {
                out.push((from, to));
                assert(Seq::new(out@.len(), |k: int| (out@[k].0 as int, out@[k].1 as int))
                    =~= Seq::new(
                    before.len(),
                    |k: int| (before[k].0 as int, before[k].1 as int),
                ).push((from as int, to as int)));
            }
        }
        i += 1;
    }
    assert(rows@.take(i as int) =~= rows@);
    out
}

/// Whether the item in place `a` goes before the one in place `b`: by falling
/// length, then by place.
pub open spec fn goes_before(lengths: Seq<nat>, a: int, b: int) -> bool {
    lengths[a] > lengths[b] || (lengths[a] == lengths[b] && a < b)
}

/// Whether `places` are those of the longest items, at most `most`, in order:
/// an item that is left out goes after every one that is not.
pub open spec fn are_the_longest(places: Seq<usize>, lengths: Seq<nat>, most: int) -> bool {
    &&& places.len() == if lengths.len() < most {
        lengths.len() as int
    } else {
        most
    }
    &&& places.no_duplicates()
    &&& forall|i: int| 0 <= i < places.len() ==> #[trigger] places[i] < lengths.len()
    &&& forall|i: int, j: int|
        0 <= i < j < places.len() ==> goes_before(
            lengths,
            (#[trigger] places[i]) as int,
            (#[trigger] places[j]) as int,
        )
    &&& forall|i: int, b: usize|
        #![trigger places[i], places.contains(b)]
        0 <= i < places.len() && b < lengths.len() && !places.contains(b) ==> goes_before(
            lengths,
            places[i] as int,
            b as int,
        )
}

/// The numbers of a list.
pub open spec fn numbers(v: Seq<u64>) -> Seq<nat> {
    Seq::new(v.len(), |i: int| v[i] as nat)
}

/// Of a list of different places as long as there are places, every place is one.
proof fn lemma_all_places(places: Seq<usize>, n: nat, b: usize)
    requires
        places.len() == n,
        places.no_duplicates(),
        forall|i: int| 0 <= i < places.len() ==> #[trigger] places[i] < n,
        b < n,
    ensures
        places.contains(b),
{
    let numbers = places.map_values(|p: usize| p as int);
    assert(numbers.no_duplicates());
    let set = numbers.to_set();
    numbers.unique_seq_to_set();
    let range = vstd::set_lib::set_int_range(0, n as int);
    vstd::set_lib::lemma_int_range(0, n as int);
    assert(set.subset_of(range)) by {
        assert forall|x: int| set.contains(x) implies range.contains(x) by {
            let i = choose|i: int| 0 <= i < numbers.len() && numbers[i] == x;
            assert(places[i] < n);
        }
    }
    vstd::set_lib::lemma_subset_equality(set, range);
    assert(set.contains(b as int));
    let i = choose|i: int| 0 <= i < numbers.len() && numbers[i] == b as int;
    assert(places[i] == b);
}

/// The places of the longest items, at most ten, the longest first; items of
/// one length keep their order.
pub fn top_places(lengths: &Vec<u64>) -> (r: Vec<usize>)
    ensures
        are_the_longest(r@, numbers(lengths@), TOP_SYMBOLS as int),
{
    let mut keys: Vec<RankKey> = Vec::new();
    let mut i: usize = 0;
    while i < lengths.len()
        invariant
            i <= lengths@.len(),
            keys@.len() == i,
            forall|j: int|
                0 <= j < i ==> (#[trigger] keys@[j]).rank == lengths@[j] && keys@[j].name@
                    == Seq::<char>::empty(),
        decreases lengths@.len() - i,
    {
        keys.push(RankKey { rank: lengths[i], name: String::new() });
        i += 1;
    }
    let order = ranking::rank_order(&keys);
    let mut out: Vec<usize> = Vec::new();
    let mut k: usize = 0;
    while k < order.len() && k < TOP_SYMBOLS
        invariant
            k <= order@.len(),
            k <= TOP_SYMBOLS,
            out@ == order@.take(k as int),
        decreases order@.len() - k,
    {
        out.push(order[k]);
        assert(order@.take(k + 1) =~= order@.take(k as int).push(order@[k as int]));
        k += 1;
    }
    proof {
        text::text_order_is_total(Seq::<char>::empty(), Seq::<char>::empty());
        assert forall|i: int, j: int| 0 <= i < j < order@.len() implies goes_before(
            numbers(lengths@),
            (#[trigger] order@[i]) as int,
            (#[trigger] order@[j]) as int,
        ) by {
            assert(ranking::comes_first(keys@, order@[i] as int, order@[j] as int));
        }
        assert forall|i: int, b: usize|
            #![trigger out@[i], out@.contains(b)]
            0 <= i < out@.len() && b < lengths@.len() && !out@.contains(b) implies goes_before(
            numbers(lengths@),
            out@[i] as int,
            b as int,
        ) by {
            lemma_all_places(order@, lengths@.len(), b);
            let j = choose|j: int| 0 <= j < order@.len() && order@[j] == b;
            if j < out@.len() {
                assert(out@[j] == b);
            }
            assert(out@[i] == order@[i]);
            assert(goes_before(numbers(lengths@), order@[i] as int, order@[j] as int));
        }
    }
    out
}

/// What a file card shows of a symbol.
pub struct SymbolInfo {
    pub name: String,
    pub qualified: String,
    pub signature: String,
}

/// What the rows (symbol, name, qualified name, signature) say of each
/// symbol; of two rows with one symbol the later counts.
pub open spec fn info_table(rows: Seq<Vec<Cell>>) -> Map<int, (Seq<char>, Seq<char>, Seq<char>)>
    decreases rows.len(),
{
    if rows.len() == 0 {
        Map::empty()
    } else {
        let before = info_table(rows.drop_last());
        let row = rows.last()@;
        match cells::int_at(row, 0) {
            Some(id) => before.insert(
                id,
                (cells::text_at(row, 1), cells::text_at(row, 2), cells::text_at(row, 3)),
            ),
            None => before,
        }
    }
}

/// Whether a map holds what a table says of each symbol.
pub open spec fn holds_info(
    m: Map<i64, SymbolInfo>,
    table: Map<int, (Seq<char>, Seq<char>, Seq<char>)>,
) -> bool {
    forall|id: i64|
        #![trigger m.dom().contains(id)]
        m.dom().contains(id) == table.dom().contains(id as int) && (m.dom().contains(id) ==> (
        m[id].name@, m[id].qualified@, m[id].signature@) == table[id as int])
}

/// What the rows (symbol, name, qualified name, signature) say of each symbol.
pub fn read_info(rows: &Vec<Vec<Cell>>) -> (r: HashMap<i64, SymbolInfo>)
    ensures
        holds_info(r@, info_table(rows@)),
{
    let mut out: HashMap<i64, SymbolInfo> = HashMap::new();
    let mut i: usize = 0;
    assert(rows@.take(0) =~= Seq::empty());
    while i < rows.len()
        invariant
            i <= rows@.len(),
            holds_info(out@, info_table(rows@.take(i as int))),
        decreases rows@.len() - i,
    {
        assert(rows@.take(i + 1).drop_last() =~= rows@.take(i as int));
        let row = &rows[i];
        if let Some(id) = cells::tuple_int(row, 0) {
            out.insert(
                id,
                SymbolInfo {
                    name: cells::tuple_str(row, 1),
                    qualified: cells::tuple_str(row, 2),
                    signature: cells::tuple_str(row, 3),
                },
            );
        }
        i += 1;
    }
    assert(rows@.take(i as int) =~= rows@);
    out
}

/// A top symbol as a file card stores it: its name, its signature, and the
/// documentation line under its qualified name.
pub open spec fn top_entry(
    id: int,
    info: Map<int, (Seq<char>, Seq<char>, Seq<char>)>,
    docs: Map<Seq<char>, Seq<char>>,
) -> JsonView {
    let (name, qualified, signature) = if info.dom().contains(id) {
        info[id]
    } else {
        (Seq::empty(), Seq::empty(), Seq::empty())
    };
    JsonView::Obj(
        map![
            "name"@ => JsonView::Str(name),
            "signature"@ => JsonView::Str(signature),
            "doc1l"@ => JsonView::Str(
                if docs.dom().contains(qualified) {
                    docs[qualified]
                } else {
                    Seq::empty()
                },
            ),
        ],
    )
}

/// A row of the file cards.
pub struct FileCard {
    pub path: String,
    /// The rank as it stands in SQL.
    pub pagerank: String,
    pub top_symbols: String,
}

/// The top symbols of a file, as its card stores them.
pub open spec fn top_entries(
    ids: Seq<i64>,
    places: Seq<usize>,
    info: Map<int, (Seq<char>, Seq<char>, Seq<char>)>,
    docs: Map<Seq<char>, Seq<char>>,
) -> JsonView {
    JsonView::Arr(
        Seq::new(places.len(), |i: int| top_entry(ids[places[i] as int] as int, info, docs)),
    )
}

/// A file with its symbols and its rank.
pub struct RankedFile {
    pub group: FileGroup,
    /// The rank of the file as it stands in SQL.
    pub score: String,
}

/// The signature of a symbol; empty where nothing is known of it.
pub open spec fn signature_of(
    id: int,
    info: Map<int, (Seq<char>, Seq<char>, Seq<char>)>,
) -> Seq<char> {
    if info.dom().contains(id) {
        info[id].2
    } else {
        Seq::empty()
    }
}

/// The lengths of the signatures of some symbols, in bytes.
pub open spec fn signature_lengths(
    ids: Seq<i64>,
    info: Map<int, (Seq<char>, Seq<char>, Seq<char>)>,
) -> Seq<nat> {
    Seq::new(ids.len(), |i: int| utf8::byte_len(signature_of(ids[i] as int, info)))
}

/// Whether a text is ASCII.
pub open spec fn is_ascii_text(s: Seq<char>) -> bool {
    forall|i: int| 0 <= i < s.len() ==> distill::is_ascii_char(#[trigger] s[i])
}

/// Whether `stored` holds the top symbols `top`: it is their JSON text in
/// ASCII, which reads as them where the text was ASCII before.
pub open spec fn stores(stored: Seq<char>, top: JsonView) -> bool {
    &&& stored == distill::sanitized(json::rendered_text(top))
    &&& is_ascii_text(json::rendered_text(top)) ==> json::parsed_text(stored) == Some(top)
}

/// Whether `card` is the card of a file: its path, its rank as it stands in
/// SQL, and its symbols with the longest signatures.
pub open spec fn is_card_of(
    card: FileCard,
    file: RankedFile,
    info: Map<int, (Seq<char>, Seq<char>, Seq<char>)>,
    docs: Map<Seq<char>, Seq<char>>,
) -> bool {
    let ids = file.group.symbols@;
    &&& card.path@ == distill::sanitized(file.group.path@)
    &&& card.pagerank@ == file.score@
    &&& exists|places: Seq<usize>|
        #![trigger top_entries(ids, places, info, docs)]
        are_the_longest(places, signature_lengths(ids, info), TOP_SYMBOLS as int) && stores(
            card.top_symbols@,
            top_entries(ids, places, info, docs),
        )
}

/// A top symbol as a file card stores it.
fn build_entry(
    id: i64,
    info: &HashMap<i64, SymbolInfo>,
    docs: &StrMap<String>,
    Ghost(info_map): Ghost<Map<int, (Seq<char>, Seq<char>, Seq<char>)>>,
    Ghost(doc_map): Ghost<Map<Seq<char>, Seq<char>>>,
) -> (r: Json)
    requires
        holds_info(info@, info_map),
        distill::holds_texts(*docs, doc_map),
    ensures
        r@ == top_entry(id as int, info_map, doc_map),
{
    let mut name = String::new();
    let mut qualified = String::new();
    let mut signature = String::new();
    assert(info@.dom().contains(id) == info_map.dom().contains(id as int));
    if let Some(found) = info.get(&id) {
        name = found.name.clone();
        qualified = found.qualified.clone();
        signature = found.signature.clone();
    }
    assert(docs.has(qualified@) == doc_map.dom().contains(qualified@));
    let doc = match docs.get(qualified.as_str()) {
        Some(d) => d.clone(),
        None => String::new(),
    };
    Json::object().with("name", Json::Text(name)).with("signature", Json::Text(signature)).with(
        "doc1l",
        Json::Text(doc),
    )
}

/// Top symbols hold strings only.
proof fn lemma_entries_are_plain(
    ids: Seq<i64>,
    places: Seq<usize>,
    info: Map<int, (Seq<char>, Seq<char>, Seq<char>)>,
    docs: Map<Seq<char>, Seq<char>>,
)
    ensures
        json::plain(top_entries(ids, places, info, docs), json::DEPTH_LIMIT as nat),
{
    reveal_with_fuel(json::plain, 2);
    reveal_strlit("$serde_json::private::RawValue");
    reveal_strlit("name");
    reveal_strlit("signature");
    reveal_strlit("doc1l");
    assert(json::RAW_TEXT_NAME@.len() == 30);
    let top = top_entries(ids, places, info, docs)->Arr_0;
    assert forall|i: int| 0 <= i < top.len() implies json::plain(#[trigger] top[i], 126) by {
        assert(top[i] == top_entry(ids[places[i] as int] as int, info, docs));
        assert(json::plain(top_entry(ids[places[i] as int] as int, info, docs), 126));
    }
}

/// The lengths of the signatures of some symbols, in bytes.
fn measure_signatures(
    ids: &Vec<i64>,
    info: &HashMap<i64, SymbolInfo>,
    Ghost(info_map): Ghost<Map<int, (Seq<char>, Seq<char>, Seq<char>)>>,
) -> (r: Vec<u64>)
    requires
        holds_info(info@, info_map),
    ensures
        numbers(r@) == signature_lengths(ids@, info_map),
{
    let mut out: Vec<u64> = Vec::new();
    let mut i: usize = 0;
    while i < ids.len()
        invariant
            i <= ids@.len(),
            holds_info(info@, info_map),
            out@.len() == i,
            forall|j: int|
                0 <= j < i ==> #[trigger] out@[j] == utf8::byte_len(
                    signature_of(ids@[j] as int, info_map),
                ),
        decreases ids@.len() - i,
    {
        let id = ids[i];
        assert(info@.dom().contains(id) == info_map.dom().contains(id as int));
        let length: usize = match info.get(&id) {
            Some(found) => utf8::len_of(found.signature.as_str()),
            None => 0,
        };
        out.push(length as u64);
        i += 1;
    }
    assert(numbers(out@) =~= signature_lengths(ids@, info_map));
    out
}

/// No symbol that a file card leaves out has a longer signature than one that
/// it lists.
pub proof fn longest_signatures_are_listed(
    ids: Seq<i64>,
    places: Seq<usize>,
    info: Map<int, (Seq<char>, Seq<char>, Seq<char>)>,
    listed: int,
    left_out: usize,
)
    requires
        are_the_longest(places, signature_lengths(ids, info), TOP_SYMBOLS as int),
        0 <= listed < places.len(),
        left_out < ids.len(),
        !places.contains(left_out),
    ensures
        utf8::byte_len(signature_of(ids[left_out as int] as int, info)) <= utf8::byte_len(
            signature_of(ids[places[listed] as int] as int, info),
        ),
{
    assert(goes_before(signature_lengths(ids, info), places[listed] as int, left_out as int));
}

/// The card of one file.
fn build_file_card(
    file: &RankedFile,
    info: &HashMap<i64, SymbolInfo>,
    docs: &StrMap<String>,
    Ghost(info_map): Ghost<Map<int, (Seq<char>, Seq<char>, Seq<char>)>>,
    Ghost(doc_map): Ghost<Map<Seq<char>, Seq<char>>>,
) -> (r: FileCard)
    requires
        holds_info(info@, info_map),
        distill::holds_texts(*docs, doc_map),
    ensures
        is_card_of(r, *file, info_map, doc_map),
{
    let ids = &file.group.symbols;
    let lengths = measure_signatures(ids, info, Ghost(info_map));
    let places = top_places(&lengths);
    assert(numbers(lengths@).len() == ids@.len());
    let mut entries: Vec<Json> = Vec::new();
    let mut i: usize = 0;
    while i < places.len()
        invariant
            i <= places@.len(),
            lengths@.len() == ids@.len(),
            are_the_longest(places@, numbers(lengths@), TOP_SYMBOLS as int),
            holds_info(info@, info_map),
            distill::holds_texts(*docs, doc_map),
            entries@.len() == i,
            forall|j: int|
                0 <= j < i ==> (#[trigger] entries@[j])@ == top_entry(
                    ids@[places@[j] as int] as int,
                    info_map,
                    doc_map,
                ),
        decreases places@.len() - i,
    {
        assert(places@[i as int] < lengths@.len());
        entries.push(build_entry(ids[places[i]], info, docs, Ghost(info_map), Ghost(doc_map)));
        i += 1;
    }
    let array = Json::array(entries);
    let ghost top = top_entries(ids@, places@, info_map, doc_map);
    assert(array@->Arr_0 =~= top->Arr_0);
    proof {
        lemma_entries_are_plain(ids@, places@, info_map, doc_map);
        distill::card_fields_are_ascii_and_fit(json::rendered_text(top));
    }
    let text = json::render(&array);
    FileCard {
        path: distill::sanitize(file.group.path.as_str()),
        pagerank: file.score.clone(),
        top_symbols: distill::sanitize(text.as_str()),
    }
}

/// The cards of some files, each with the symbols that have the longest
/// signatures, a measure of what the file offers. `symbols` are (symbol, name,
/// qualified name, signature), `cards` are (qualified name, documentation
/// line), and both may be missing.
pub fn build_repomap_cards(
    files: &Vec<RankedFile>,
    symbols: &Option<Vec<Vec<Cell>>>,
    cards: &Option<Vec<Vec<Cell>>>,
) -> (r: Vec<FileCard>)
    ensures
        r@.len() == files@.len(),
        forall|i: int|
            0 <= i < files@.len() ==> is_card_of(
                #[trigger] r@[i],
                files@[i],
                info_table(distill::rows_or_none(*symbols)),
                distill::text_table(distill::rows_or_none(*cards), 0, 1),
            ),
{
    let ghost info_map = info_table(distill::rows_or_none(*symbols));
    let ghost doc_map = distill::text_table(distill::rows_or_none(*cards), 0, 1);
    let none: Vec<Vec<Cell>> = Vec::new();
    assert(none@ =~= Seq::empty());
    let info = match symbols {
        Some(rows) => read_info(rows),
        None => read_info(&none),
    };
    let docs = match cards {
        Some(rows) => distill::read_texts(rows, 0, 1),
        None => distill::read_texts(&none, 0, 1),
    };
    let mut out: Vec<FileCard> = Vec::new();
    let mut i: usize = 0;
    while i < files.len()
        invariant
            i <= files@.len(),
            holds_info(info@, info_map),
            distill::holds_texts(docs, doc_map),
            out@.len() == i,
            forall|j: int|
                0 <= j < i ==> is_card_of(
                    #[trigger] out@[j],
                    files@[j],
                    info_map,
                    doc_map,
                ),
        decreases files@.len() - i,
    {
        out.push(
            build_file_card(&files[i], &info, &docs, Ghost(info_map), Ghost(doc_map)),
        );
        i += 1;
    }
    out
}

/// The columns of the file cards.
pub open spec fn file_columns() -> Seq<Seq<char>> {
    seq!["path"@, "pagerank"@, "top_symbols"@]
}

/// The row of a file card, as it is inserted: the rank stands unquoted.
pub open spec fn file_row(card: FileCard) -> Seq<Seq<char>> {
    seq![cells::quoted(card.path@), card.pagerank@, cells::quoted(card.top_symbols@)]
}

/// The statements that write some file cards.
pub open spec fn file_statements(cards: Seq<FileCard>) -> Seq<Seq<char>> {
    statements::delete_statements(
        distill::REPOMAP_CARDS_TABLE@,
        "path"@,
        Seq::new(cards.len(), |i: int| cards[i].path@),
    ) + Seq::new(
        cards.len(),
        |i: int|
            "INSERT INTO "@ + distill::REPOMAP_CARDS_TABLE@ + " ("@ + text::joined(
                file_columns(),
                ", "@,
            ) + ") VALUES ("@ + text::joined(file_row(cards[i]), ","@) + ")"@,
    )
}

/// The statements that write some file cards: the rows with their paths are
/// deleted first, then each card is inserted.
pub fn file_card_statements(cards: &Vec<FileCard>) -> (r: Vec<String>)
    ensures
        text::views(r@) == file_statements(cards@),
{
    let mut paths: Vec<String> = Vec::new();
    let mut rows: Vec<Vec<SqlValue>> = Vec::new();
    let mut i: usize = 0;
    while i < cards.len()
        invariant
            i <= cards@.len(),
            paths@.len() == i,
            rows@.len() == i,
            forall|j: int| 0 <= j < i ==> (#[trigger] paths@[j])@ == cards@[j].path@,
            forall|j: int|
                0 <= j < i ==> Seq::new(
                    (#[trigger] rows@[j])@.len(),
                    |k: int| statements::value_text(rows@[j]@[k]),
                ) == file_row(cards@[j]),
        decreases cards@.len() - i,
    {
        let card = &cards[i];
        paths.push(card.path.clone());
        let mut row: Vec<SqlValue> = Vec::new();
        row.push(SqlValue { text: card.path.clone(), numeric: false });
        row.push(SqlValue { text: card.pagerank.clone(), numeric: true });
        row.push(SqlValue { text: card.top_symbols.clone(), numeric: false });
        assert(Seq::new(row@.len(), |k: int| statements::value_text(row@[k])) =~= file_row(*card));
        rows.push(row);
        i += 1;
    }
    let mut columns: Vec<String> = Vec::new();
    columns.push("path".to_string());
    columns.push("pagerank".to_string());
    columns.push("top_symbols".to_string());
    assert(text::views(columns@) =~= file_columns());
    assert(text::views(paths@) =~= Seq::new(cards@.len(), |i: int| cards@[i].path@));
    let r = statements::bulk_upsert(
        distill::REPOMAP_CARDS_TABLE,
        "path",
        &columns,
        &paths,
        &rows,
    );
    assert(text::views(r@) =~= file_statements(cards@));
    r
}

/// The symbols of a file are those that belong to it.
pub proof fn files_hold_their_own_symbols(
    ids: Seq<int>,
    owner: Map<int, Seq<char>>,
    path: Seq<char>,
    id: int,
)
    ensures
        symbols_in(ids, owner, path).contains(id) <==> ids.contains(id) && owner[id] == path,
    decreases ids.len(),
{
    let all = symbols_in(ids, owner, path);
    if ids.len() > 0 {
        let head = ids.drop_last();
        let before = symbols_in(head, owner, path);
        files_hold_their_own_symbols(head, owner, path, id);
        if all.contains(id) {
            let k = all.index_of(id);
            if k < before.len() {
                assert(before[k] == id);
                let i = head.index_of(id);
                assert(ids[i] == id);
            } else {
                assert(ids[ids.len() - 1] == id);
            }
        }
        if ids.contains(id) && owner[id] == path {
            let i = ids.index_of(id);
            if i < head.len() {
                assert(head[i] == id);
                let k = before.index_of(id);
                assert(all[k] == id);
            } else {
                assert(all[all.len() - 1] == id);
            }
        }
    }
}

/// The file of a symbol is that of the last row with the symbol.
pub proof fn last_owner_of_a_symbol_counts(rows: Seq<Vec<Cell>>, id: int, i: int)
    requires
        0 <= i < rows.len(),
        cells::int_at(rows[i]@, 0) == Some(id),
        forall|j: int| i < j < rows.len() ==> cells::int_at((#[trigger] rows[j])@, 0) != Some(id),
    ensures
        owners(rows).dom().contains(id),
        owners(rows)[id] == cells::text_at(rows[i]@, 1),
    decreases rows.len(),
{
    if i < rows.len() - 1 {
        let head = rows.drop_last();
        assert(head[i] == rows[i]);
        assert forall|j: int| i < j < head.len() implies cells::int_at((#[trigger] head[j])@, 0)
            != Some(id) by {
            assert(head[j] == rows[j]);
        }
        assert(rows.last() == rows[rows.len() - 1]);
        last_owner_of_a_symbol_counts(head, id, i);
    }
}

/// What is known of a symbol is what its last row says: the name, the
/// qualified name and the signature, in this order.
pub proof fn last_row_of_a_symbol_counts(rows: Seq<Vec<Cell>>, id: int, i: int)
    requires
        0 <= i < rows.len(),
        cells::int_at(rows[i]@, 0) == Some(id),
        forall|j: int| i < j < rows.len() ==> cells::int_at((#[trigger] rows[j])@, 0) != Some(id),
    ensures
        info_table(rows).dom().contains(id),
        info_table(rows)[id] == (
            cells::text_at(rows[i]@, 1),
            cells::text_at(rows[i]@, 2),
            cells::text_at(rows[i]@, 3),
        ),
    decreases rows.len(),
{
    if i < rows.len() - 1 {
        let head = rows.drop_last();
        assert(head[i] == rows[i]);
        assert forall|j: int| i < j < head.len() implies cells::int_at((#[trigger] head[j])@, 0)
            != Some(id) by {
            assert(head[j] == rows[j]);
        }
        assert(rows.last() == rows[rows.len() - 1]);
        last_row_of_a_symbol_counts(head, id, i);
    }
}

/// A file card lists a symbol with its own name and signature, and with the
/// documentation line stored under its qualified name.
pub proof fn symbols_are_listed_with_their_documentation(
    id: int,
    info: Map<int, (Seq<char>, Seq<char>, Seq<char>)>,
    docs: Map<Seq<char>, Seq<char>>,
    name: Seq<char>,
    qualified: Seq<char>,
    signature: Seq<char>,
)
    requires
        info.dom().contains(id),
        info[id] == (name, qualified, signature),
    ensures
        json::str_field(top_entry(id, info, docs), "name"@) == Some(name),
        json::str_field(top_entry(id, info, docs), "signature"@) == Some(signature),
        docs.dom().contains(qualified) ==> json::str_field(top_entry(id, info, docs), "doc1l"@)
            == Some(docs[qualified]),
{
    reveal_strlit("name");
    reveal_strlit("signature");
    reveal_strlit("doc1l");
    assert("name"@.len() == 4 && "signature"@.len() == 9 && "doc1l"@.len() == 5);
}

/// The calls are those of the rows, from the caller in the first column to
/// the callee in the second.
pub proof fn calls_are_those_of_the_rows(rows: Seq<Vec<Cell>>, from: int, to: int)
    ensures
        calls(rows).contains((from, to)) <==> exists|i: int|
            0 <= i < rows.len() && cells::int_at((#[trigger] rows[i])@, 0) == Some(from)
                && cells::int_at(rows[i]@, 1) == Some(to),
    decreases rows.len(),
{
    let all = calls(rows);
    if rows.len() > 0 {
        let head = rows.drop_last();
        let before = calls(head);
        calls_are_those_of_the_rows(head, from, to);
        if all.contains((from, to)) {
            let k = all.index_of((from, to));
            if k < before.len() {
                assert(before[k] == (from, to));
                let i = choose|i: int|
                    0 <= i < head.len() && cells::int_at((#[trigger] head[i])@, 0) == Some(from)
                        && cells::int_at(head[i]@, 1) == Some(to);
                assert(rows[i] == head[i]);
            } else {
                assert(rows[rows.len() - 1] == rows.last());
            }
        }
        if exists|i: int|
            0 <= i < rows.len() && cells::int_at((#[trigger] rows[i])@, 0) == Some(from)
                && cells::int_at(rows[i]@, 1) == Some(to) {
            let i = choose|i: int|
                0 <= i < rows.len() && cells::int_at((#[trigger] rows[i])@, 0) == Some(from)
                    && cells::int_at(rows[i]@, 1) == Some(to);
            if i < head.len() {
                assert(head[i] == rows[i]);
                let k = before.index_of((from, to));
                assert(all[k] == (from, to));
            } else {
                assert(all[all.len() - 1] == (from, to));
            }
        }
    }
}

} // verus!
