//! The user's configuration: the default mode, the serve defaults, and the
//! registered knowledge bases.

use vstd::prelude::*;
use vstd::string::*;

use crate::calendar;
use crate::kb;
use crate::kb::KbMode;
use crate::kb::KbSpec;
use crate::text;
use crate::utf8;

verus! {

/// A registered knowledge base.
#[derive(Debug)]
pub struct StoredKb {
    pub mode: KbMode,
    pub kb_dir: String,
    pub created: String,
}

/// What a registration holds.
pub struct StoredView {
    pub mode: KbMode,
    pub kb_dir: Seq<char>,
    pub created: Seq<char>,
}

impl View for StoredKb {
    type V = StoredView;

    open spec fn view(&self) -> StoredView {
        StoredView { mode: self.mode, kb_dir: self.kb_dir@, created: self.created@ }
    }
}

/// The defaults of `serve`. Command-line flags override them.
#[derive(Debug)]
pub struct ServeConfig {
    /// The profile of the tool surface.
    pub profile: Option<String>,
    /// How much of each tool's description is advertised.
    pub strip_tool_descriptions: Option<String>,
}

impl Default for ServeConfig {
    fn default() -> (r: Self)
        ensures
            r.profile is None,
            r.strip_tool_descriptions is None,
    {
        ServeConfig { profile: None, strip_tool_descriptions: None }
    }
}

/// The registered knowledge bases by the paths of their sources, in the order
/// of the paths.
#[derive(Debug)]
pub struct KbTable {
    entries: Vec<(String, StoredKb)>,
}

impl KbTable {
    /// The paths, in order.
    pub closed spec fn paths(self) -> Seq<Seq<char>> {
        Seq::new(self.entries@.len(), |i: int| self.entries@[i].0@)
    }

    /// The registrations, in the order of their paths.
    pub closed spec fn stored(self) -> Seq<StoredView> {
        Seq::new(self.entries@.len(), |i: int| self.entries@[i].1@)
    }

    /// Whether the paths stand in order, each once.
    pub open spec fn sound(self) -> bool {
        self.paths().len() == self.stored().len() && forall|i: int, j: int|
            0 <= i < j < self.paths().len() ==> text::comes_before(
                #[trigger] self.paths()[i],
                #[trigger] self.paths()[j],
            )
    }

    /// Whether a path is registered.
    pub open spec fn has(self, path: Seq<char>) -> bool {
        self.paths().contains(path)
    }

    /// The registrations by path.
    pub open spec fn map(self) -> Map<Seq<char>, StoredView> {
        Map::new(
            |p: Seq<char>| self.paths().contains(p),
            |p: Seq<char>| self.stored()[self.paths().index_of(p)],
        )
    }

    /// A table without entries.
    pub fn new() -> (r: Self)
        ensures
            r.sound(),
            r.paths().len() == 0,
            r.map() == Map::<Seq<char>, StoredView>::empty(),
    {
        let r = KbTable { entries: Vec::new() };
        assert(r.map() =~= Map::<Seq<char>, StoredView>::empty());
        r
    }

    /// The number of registrations.
    pub fn len(&self) -> (r: usize)
        ensures
            r == self.paths().len(),
    {
        self.entries.len()
    }

    /// The path in place `i`.
    pub fn path_at(&self, i: usize) -> (r: &str)
        requires
            i < self.paths().len(),
        ensures
            r@ == self.paths()[i as int],
    {
        self.entries[i].0.as_str()
    }

    /// The registration in place `i`.
    pub fn kb_at(&self, i: usize) -> (r: &StoredKb)
        requires
            i < self.paths().len(),
        ensures
            r@ == self.stored()[i as int],
    {
        &self.entries[i].1
    }

    /// The first place whose path does not come before `path`.
    fn place_of(&self, path: &str) -> (r: usize)
        requires
            self.sound(),
        ensures
            r <= self.paths().len(),
            forall|i: int|
                0 <= i < r ==> text::comes_before(#[trigger] self.paths()[i], path@),
            forall|i: int|
                r <= i < self.paths().len() ==> !text::comes_before(
                    #[trigger] self.paths()[i],
                    path@,
                ),
    {
        let mut i: usize = 0;
        while i < self.entries.len() && text::precedes(self.entries[i].0.as_str(), path)
            invariant
                i <= self.entries@.len(),
                self.sound(),
                forall|j: int|
                    0 <= j < i ==> text::comes_before(#[trigger] self.paths()[j], path@),
            decreases self.entries@.len() - i,
        {
            assert(self.paths()[i as int] == self.entries@[i as int].0@);
            i += 1;
        }
        assert forall|j: int| i <= j < self.paths().len() implies !text::comes_before(
            #[trigger] self.paths()[j],
            path@,
        ) by {
            assert(self.paths()[i as int] == self.entries@[i as int].0@);
            if j > i && text::comes_before(self.paths()[j], path@) {
                text::text_order_is_transitive(
                    self.paths()[i as int],
                    self.paths()[j],
                    path@,
                );
            }
        }
        i
    }

    /// Whether a path is registered.
    pub fn contains_key(&self, path: &str) -> (r: bool)
        requires
            self.sound(),
        ensures
            r == self.map().dom().contains(path@),
    {
        let at = self.place_of(path);
        proof {
            self.lemma_place(path@, at as int);
        }
        at < self.entries.len() && text::same(self.entries[at].0.as_str(), path)
    }

    /// The registration of a path.
    pub fn get(&self, path: &str) -> (r: Option<&StoredKb>)
        requires
            self.sound(),
        ensures
            match r {
                Some(k) => self.map().dom().contains(path@) && self.map()[path@] == k@,
                None => !self.map().dom().contains(path@),
            },
    {
        let at = self.place_of(path);
        proof {
            self.lemma_place(path@, at as int);
        }
        if at < self.entries.len() && text::same(self.entries[at].0.as_str(), path) {
            Some(&self.entries[at].1)
        } else {
            None
        }
    }

    /// A registered path stands in its place.
    proof fn lemma_place(self, path: Seq<char>, at: int)
        requires
            self.sound(),
            0 <= at <= self.paths().len(),
            forall|i: int|
                0 <= i < at ==> text::comes_before(#[trigger] self.paths()[i], path),
            forall|i: int|
                at <= i < self.paths().len() ==> !text::comes_before(
                    #[trigger] self.paths()[i],
                    path,
                ),
        ensures
            self.paths().contains(path) <==> at < self.paths().len() && self.paths()[at] == path,
            self.paths().contains(path) ==> self.paths().index_of(path) == at,
    {
        if self.paths().contains(path) {
            let i = self.paths().index_of(path);
            assert(self.paths()[i] == path);
            text::text_order_is_total(path, path);
            if i > at {
                assert(text::comes_before(self.paths()[at], self.paths()[i]));
            }
        }
    }

    /// Registers a knowledge base under a path, in the place of the one that
    /// was registered there.
    pub fn insert(&mut self, path: &str, kb: StoredKb)
        requires
            old(self).sound(),
        ensures
            final(self).sound(),
            final(self).map() == old(self).map().insert(path@, kb@),
    {
        let ghost before = *self;
        let at = self.place_of(path);
        proof {
            self.lemma_place(path@, at as int);
        }
        if at < self.entries.len() && text::same(self.entries[at].0.as_str(), path) {
            self.entries.set(at, (path.to_string(), kb));
            assert(self.paths() =~= before.paths());
            assert(self.stored() =~= before.stored().update(at as int, kb@));
            assert(self.map() =~= before.map().insert(path@, kb@)) by {
                assert(self.map().dom() =~= before.map().dom().insert(path@));
                assert forall|p: Seq<char>| self.map().dom().contains(p) implies self.map()[p]
                    == before.map().insert(path@, kb@)[p] by {
                    let i = before.paths().index_of(p);
                    assert(before.paths()[i] == p);
                    if p != path@ {
                        assert(i != at);
                    }
                }
            }
        } else {
            assert(!before.paths().contains(path@));
            self.entries.insert(at, (path.to_string(), kb));
            proof {
                self.lemma_inserted(before, path@, kb@, at as int);
            }
        }
    }

    /// What the insertion of a new path into its place does.
    proof fn lemma_inserted(self, before: Self, path: Seq<char>, kb: StoredView, at: int)
        requires
            before.sound(),
            !before.paths().contains(path),
            0 <= at <= before.paths().len(),
            forall|i: int|
                0 <= i < at ==> text::comes_before(#[trigger] before.paths()[i], path),
            forall|i: int|
                at <= i < before.paths().len() ==> !text::comes_before(
                    #[trigger] before.paths()[i],
                    path,
                ),
            self.paths() =~= before.paths().insert(at, path),
            self.stored() =~= before.stored().insert(at, kb),
        ensures
            self.sound(),
            self.map() == before.map().insert(path, kb),
    {
        let old_paths = before.paths();
        let new_paths = self.paths();
        assert forall|i: int, j: int| 0 <= i < j < new_paths.len() implies text::comes_before(
            #[trigger] new_paths[i],
            #[trigger] new_paths[j],
        ) by {
            let a = if i <= at {
                i
            } else {
                i - 1
            };
            let b = if j <= at {
                j
            } else {
                j - 1
            };
            if i == at {
                assert(new_paths[j] == old_paths[j - 1]);
                text::text_order_is_total(old_paths[j - 1], path);
                assert(old_paths.contains(old_paths[j - 1]));
            } else if j == at {
                assert(new_paths[i] == old_paths[i]);
            } else {
                assert(new_paths[i] == old_paths[a] && new_paths[j] == old_paths[b]);
            }
        }
        assert(new_paths[at] == path);
        assert(self.map().dom() =~= before.map().dom().insert(path)) by {
            assert forall|p: Seq<char>| new_paths.contains(p) == (old_paths.contains(p) || p
                == path) by {
                if new_paths.contains(p) && p != path {
                    let i = choose|i: int| 0 <= i < new_paths.len() && new_paths[i] == p;
                    if i < at {
                        assert(old_paths[i] == p);
                    } else {
                        assert(old_paths[i - 1] == p);
                    }
                }
                if old_paths.contains(p) {
                    let i = choose|i: int| 0 <= i < old_paths.len() && old_paths[i] == p;
                    if i < at {
                        assert(new_paths[i] == p);
                    } else {
                        assert(new_paths[i + 1] == p);
                    }
                }
            }
        }
        assert forall|p: Seq<char>| self.map().dom().contains(p) implies self.map()[p]
            == before.map().insert(path, kb)[p] by {
            let i = new_paths.index_of(p);
            assert(new_paths[i] == p);
            self.lemma_only(i, p);
            if p == path {
                self.lemma_only(at, p);
            } else {
                let j = old_paths.index_of(p);
                assert(old_paths[j] == p);
                if j < at {
                    assert(new_paths[j] == p);
                    self.lemma_only(j, p);
                } else {
                    assert(new_paths[j + 1] == p);
                    self.lemma_only(j + 1, p);
                }
            }
        }
        assert(self.map() =~= before.map().insert(path, kb));
    }

    /// A path stands in one place only.
    proof fn lemma_only(self, i: int, p: Seq<char>)
        requires
            0 <= i < self.paths().len(),
            self.paths()[i] == p,
            forall|a: int, b: int|
                0 <= a < b < self.paths().len() ==> text::comes_before(
                    #[trigger] self.paths()[a],
                    #[trigger] self.paths()[b],
                ),
        ensures
            self.paths().index_of(p) == i,
    {
        let j = self.paths().index_of(p);
        assert(self.paths().contains(p));
        assert(self.paths()[j] == p);
        text::text_order_is_total(p, p);
        if i < j {
            assert(text::comes_before(self.paths()[i], self.paths()[j]));
        }
        if j < i {
            assert(text::comes_before(self.paths()[j], self.paths()[i]));
        }
    }
}

/// The user's configuration.
#[derive(Debug)]
pub struct Config {
    /// The mode where none is named.
    pub default_mode: KbMode,
    pub serve: ServeConfig,
    pub kbs: KbTable,
}

impl Default for Config {
    fn default() -> (r: Self)
        ensures
            r.default_mode == KbMode::Global,
            r.serve.profile is None,
            r.serve.strip_tool_descriptions is None,
            r.kbs.sound(),
            r.kbs.map() == Map::<Seq<char>, StoredView>::empty(),
            r.kbs.paths().len() == 0,
    {
        Config {
            default_mode: KbMode::Global,
            serve: ServeConfig::default(),
            kbs: KbTable::new(),
        }
    }
}

/// How the paths below the directory `path` begin.
pub open spec fn below(path: Seq<char>) -> Seq<char> {
    if path.len() > 0 && path.last() == '/' {
        path
    } else {
        path + "/"@
    }
}

/// Whether the source `path` is `query` or one of its ancestors.
pub open spec fn covers(path: Seq<char>, query: Seq<char>) -> bool {
    query == path || text::begins_with(query, below(path))
}

/// A path begins with every source that covers it.
proof fn lemma_covered(path: Seq<char>, query: Seq<char>)
    requires
        covers(path, query),
    ensures
        text::begins_with(query, path),
{
    reveal_strlit("/");
    if query != path {
        assert(query.take(path.len() as int) =~= below(path).take(path.len() as int));
        assert(below(path).take(path.len() as int) =~= path);
    } else {
        assert(query.take(path.len() as int) =~= path);
    }
}

/// Whether `path` is the registered source that is closest to `query`.
pub open spec fn is_closest(table: KbTable, path: Seq<char>, query: Seq<char>) -> bool {
    &&& table.has(path)
    &&& covers(path, query)
    &&& forall|other: Seq<char>|
        table.has(other) && #[trigger] covers(other, query) ==> utf8::byte_len(other)
            <= utf8::byte_len(path)
}

/// A head of a text takes no more bytes than the text, and fewer if it is shorter.
proof fn lemma_head_bytes(a: Seq<char>, b: Seq<char>)
    requires
        text::begins_with(b, a),
    ensures
        utf8::byte_len(a) <= utf8::byte_len(b),
        a != b ==> utf8::byte_len(a) < utf8::byte_len(b),
{
    let rest = b.skip(a.len() as int);
    utf8::encoding_of_concatenation(a, rest);
    assert(a + rest =~= b);
    if rest.len() > 0 {
        utf8::lemma_byte_len_first(rest);
    } else {
        assert(a =~= b);
    }
}

/// At most one registered source is the closest.
pub proof fn closest_source_is_unique(
    table: KbTable,
    a: Seq<char>,
    b: Seq<char>,
    query: Seq<char>,
)
    requires
        is_closest(table, a, query),
        is_closest(table, b, query),
    ensures
        a == b,
{
    lemma_covered(a, query);
    lemma_covered(b, query);
    if a.len() <= b.len() {
        assert(b.take(a.len() as int) =~= a);
        lemma_head_bytes(a, b);
    } else {
        assert(a.take(b.len() as int) =~= b);
        lemma_head_bytes(b, a);
    }
}

/// Whether the source `path` is `query` or one of its ancestors.
fn covers_path(path: &str, query: &str) -> (r: bool)
    ensures
        r == covers(path@, query@),
{
    let cs = text::chars_of(path);
    if cs.len() > 0 && cs[cs.len() - 1] == '/' {
        text::same(query, path) || text::starts_with(query, path)
    } else {
        text::same(query, path) || text::starts_with(query, text::cat2(path, "/").as_str())
    }
}

impl Config {
    /// Registers the knowledge base `spec` for `source` at the moment `now`,
    /// in seconds since 1970.
    pub fn upsert_kb(&mut self, source: &str, spec: KbSpec, now: u64)
        requires
            old(self).kbs.sound(),
        ensures
            final(self).default_mode == old(self).default_mode,
            final(self).serve == old(self).serve,
            final(self).kbs.sound(),
            exists|t: calendar::DateTime|
                #[trigger] calendar::is_valid(t) && calendar::seconds_to(t) == now
                    && final(self).kbs.map() == old(self).kbs.map().insert(
                    source@,
                    StoredView {
                        mode: spec.mode,
                        kb_dir: spec.kb_dir@,
                        created: calendar::iso(t),
                    },
                ),
    {
        let created = calendar::iso_text(now);
        self.kbs.insert(source, StoredKb { mode: spec.mode, kb_dir: spec.kb_dir, created });
    }

    /// The knowledge base of the registered source that is `query` or its
    /// closest ancestor. `query` is a canonical path.
    pub fn lookup_for_source(&self, query: &str) -> (r: Option<KbSpec>)
        requires
            self.kbs.sound(),
        ensures
            match r {
                Some(spec) => exists|path: Seq<char>| #[trigger]
                    is_closest(self.kbs, path, query@) && self.kbs.map()[path].mode == spec.mode
                        && self.kbs.map()[path].kb_dir == spec.kb_dir@,
                None => forall|path: Seq<char>|
                    #![trigger self.kbs.has(path)]
                    self.kbs.has(path) ==> !covers(path, query@),
            },
    {
        let ghost paths = self.kbs.paths();
        let mut best: Option<usize> = None;
        let mut i: usize = 0;
        while i < self.kbs.len()
            invariant
                i <= paths.len(),
                paths == self.kbs.paths(),
                match best {
                    Some(b) => b < i && covers(paths[b as int], query@) && forall|j: int|
                        0 <= j < i && covers(#[trigger] paths[j], query@) ==> utf8::byte_len(
                            paths[j],
                        ) <= utf8::byte_len(paths[b as int]),
                    None => forall|j: int| 0 <= j < i ==> !covers(#[trigger] paths[j], query@),
                },
            decreases paths.len() - i,
        {
            let path = self.kbs.path_at(i);
            if covers_path(path, query) {
                let take = match best {
                    Some(b) => utf8::len_of(path) > utf8::len_of(self.kbs.path_at(b)),
                    None => true,
                };
                if take {
                    best = Some(i);
                }
            }
            i += 1;
        }
        match best {
            Some(b) => {
                let stored = self.kbs.kb_at(b);
                proof {
                    let path = paths[b as int];
                    self.kbs.lemma_only(b as int, path);
                    assert forall|other: Seq<char>|
                        self.kbs.has(other) && #[trigger] covers(
                            other,
                            query@,
                        ) implies utf8::byte_len(other) <= utf8::byte_len(path) by {
                        let j = choose|j: int| 0 <= j < paths.len() && paths[j] == other;
                        assert(covers(paths[j], query@));
                    }
                    assert(is_closest(self.kbs, path, query@));
                }
                Some(KbSpec { mode: stored.mode, kb_dir: stored.kb_dir.clone() })
            },
            None => None,
        }
    }
}

/// The error for a source without a knowledge base.
pub open spec fn not_configured(source: Seq<char>) -> Seq<char> {
    "no KB configured for source `"@ + source + "`. Run `heliosdb-codekb-mcp init --source "@
        + source + " --mode <co-located|global|hybrid>` first."@
}

/// The error for a source without a knowledge base.
pub fn not_configured_error(source: &str) -> (r: String)
    ensures
        r@ == not_configured(source@),
{
    text::cat5(
        "no KB configured for source `",
        source,
        "`. Run `heliosdb-codekb-mcp init --source ",
        source,
        " --mode <co-located|global|hybrid>` first.",
    )
}

/// A registered source is its own closest source and has no other, so what was
/// registered for a source is found for it.
pub proof fn registered_source_is_found(table: KbTable, path: Seq<char>)
    requires
        table.has(path),
    ensures
        is_closest(table, path, path),
        forall|other: Seq<char>| #[trigger] is_closest(table, other, path) ==> other == path,
{
    assert forall|other: Seq<char>|
        table.has(other) && #[trigger] covers(other, path) implies utf8::byte_len(other)
        <= utf8::byte_len(path) by {
        lemma_covered(other, path);
        lemma_head_bytes(other, path);
    }
    assert forall|other: Seq<char>| #[trigger] is_closest(table, other, path) implies other
        == path by {
        closest_source_is_unique(table, other, path, path);
    }
}

} // verus!
