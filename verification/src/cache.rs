//! The result cache of a serve session: least recently used out first.

use vstd::prelude::*;
use vstd::string::*;
use vstd::utf8::*;

use crate::json;
use crate::json::Json;
use crate::json::JsonView;
use crate::utf8;

use std::collections::HashMap;
use std::collections::VecDeque;

verus! {

broadcast use vstd::std_specs::hash::group_hash_axioms;

/// What a cache holds: the results by key, and the keys from the least to the
/// most recently used.
#[verifier::ext_equal]
pub struct CacheView {
    pub cap: nat,
    pub entries: Map<u64, JsonView>,
    pub order: Seq<u64>,
    pub hits: u64,
    pub misses: u64,
}

/// Whether every key stands in the order once, and no more keys than the
/// capacity are held.
pub open spec fn sound(c: CacheView) -> bool {
    &&& c.order.no_duplicates()
    &&& c.entries.dom() == c.order.to_set()
    &&& c.order.len() <= c.cap
}

/// A cache without entries.
pub open spec fn emptied(cap: nat) -> CacheView {
    CacheView { cap, entries: Map::empty(), order: Seq::empty(), hits: 0, misses: 0 }
}

/// The key of a call: the hash of the tool's name and of the text of its arguments.
pub open spec fn call_key(name: Seq<char>, args: JsonView) -> u64 {
    utf8::fnv_from(
        utf8::fnv_from(utf8::FNV_START, encode_utf8(name)),
        encode_utf8(json::rendered_text(args)),
    )
}

/// The result under a key.
pub open spec fn found(c: CacheView, key: u64) -> Option<JsonView> {
    if c.cap > 0 && c.entries.dom().contains(key) {
        Some(c.entries[key])
    } else {
        None
    }
}

/// The cache after a lookup: a key that was found is the most recently used.
pub open spec fn after_lookup(c: CacheView, key: u64) -> CacheView {
    if c.cap == 0 {
        c
    } else if c.entries.dom().contains(key) {
        CacheView {
            order: c.order.remove(c.order.index_of(key)).push(key),
            hits: c.hits.wrapping_add(1),
            ..c
        }
    } else {
        CacheView { misses: c.misses.wrapping_add(1), ..c }
    }
}

/// The cache after storing a result. A new key goes last; where the cache is
/// full, the least recently used key leaves first.
pub open spec fn after_store(c: CacheView, key: u64, value: JsonView) -> CacheView {
    if c.cap == 0 {
        c
    } else if c.entries.dom().contains(key) {
        CacheView { entries: c.entries.insert(key, value), ..c }
    } else if c.order.len() < c.cap {
        CacheView {
            entries: c.entries.insert(key, value),
            order: c.order.push(key),
            ..c
        }
    } else {
        CacheView {
            entries: c.entries.remove(c.order[0]).insert(key, value),
            order: c.order.drop_first().push(key),
            ..c
        }
    }
}

/// The results of earlier calls by the hash of tool name and arguments. A
/// capacity of zero switches the cache off.
pub struct WrapperCache {
    cap: usize,
    map: HashMap<u64, Json>,
    order: VecDeque<u64>,
    pub hits: u64,
    pub misses: u64,
}

impl View for WrapperCache {
    type V = CacheView;

    closed spec fn view(&self) -> CacheView {
        CacheView {
            cap: self.cap as nat,
            entries: self.map@.map_values(|j: Json| j@),
            order: self.order@,
            hits: self.hits,
            misses: self.misses,
        }
    }
}

/// Dropping the first key of an order without repeats drops it from the set.
proof fn lemma_drop_first_set(order: Seq<u64>)
    requires
        order.len() > 0,
        order.no_duplicates(),
    ensures
        order.drop_first().to_set() == order.to_set().remove(order[0]),
        order.drop_first().no_duplicates(),
{
    let rest = order.drop_first();
    assert forall|k: u64| rest.to_set().contains(k) == order.to_set().remove(order[0]).contains(
        k,
    ) by {
        if rest.contains(k) {
            let i = choose|i: int| 0 <= i < rest.len() && rest[i] == k;
            assert(order[i + 1] == k);
        }
        if order.contains(k) && k != order[0] {
            let i = choose|i: int| 0 <= i < order.len() && order[i] == k;
            assert(rest[i - 1] == k);
        }
    }
    assert(rest.to_set() =~= order.to_set().remove(order[0]));
}

/// Putting a new key last adds it to the set.
proof fn lemma_push_set(order: Seq<u64>, key: u64)
    requires
        order.no_duplicates(),
        !order.contains(key),
    ensures
        order.push(key).to_set() == order.to_set().insert(key),
        order.push(key).no_duplicates(),
{
    let more = order.push(key);
    assert forall|k: u64| more.to_set().contains(k) == order.to_set().insert(key).contains(k) by {
        if order.contains(k) {
            let i = choose|i: int| 0 <= i < order.len() && order[i] == k;
            assert(more[i] == k);
        }
        assert(more[order.len() as int] == key);
        if more.contains(k) && k != key {
            let i = choose|i: int| 0 <= i < more.len() && more[i] == k;
            assert(order[i] == k);
        }
    }
    assert(more.to_set() =~= order.to_set().insert(key));
}

/// Moving a key to the back keeps the set of keys.
proof fn lemma_bump_set(order: Seq<u64>, at: int)
    requires
        0 <= at < order.len(),
        order.no_duplicates(),
    ensures
        order.remove(at).push(order[at]).to_set() == order.to_set(),
        order.remove(at).push(order[at]).no_duplicates(),
{
    let key = order[at];
    let rest = order.remove(at);
    assert forall|i: int| 0 <= i < rest.len() implies rest[i] != key by {
        assert(rest[i] == if i < at {
            order[i]
        } else {
            order[i + 1]
        });
    }
    lemma_push_set(rest, key);
    let more = rest.push(key);
    assert forall|k: u64| more.to_set().contains(k) == order.to_set().contains(k) by {
        if order.contains(k) {
            let i = choose|i: int| 0 <= i < order.len() && order[i] == k;
            if i < at {
                assert(more[i] == k);
            } else if i > at {
                assert(more[i - 1] == k);
            } else {
                assert(more[rest.len() as int] == k);
            }
        }
        if more.contains(k) {
            let i = choose|i: int| 0 <= i < more.len() && more[i] == k;
            if i < at {
                assert(order[i] == k);
            } else if i < rest.len() {
                assert(order[i + 1] == k);
            } else {
                assert(order[at] == k);
            }
        }
    }
    assert(more.to_set() =~= order.to_set());
}

/// Lookups and stores keep a cache sound.
pub proof fn cache_stays_sound(c: CacheView, key: u64, value: JsonView)
    requires
        sound(c),
    ensures
        sound(after_lookup(c, key)),
        sound(after_store(c, key, value)),
{
    if c.entries.dom().contains(key) {
        assert(c.order.contains(key));
        lemma_bump_set(c.order, c.order.index_of(key));
        assert(c.entries.insert(key, value).dom() =~= c.entries.dom());
    } else {
        assert(!c.order.contains(key)) by {
            if c.order.contains(key) {
                assert(c.order.to_set().contains(key));
            }
        }
        if c.order.len() < c.cap {
            lemma_push_set(c.order, key);
            assert(c.entries.insert(key, value).dom() =~= c.order.push(key).to_set());
        } else if c.cap > 0 {
            let rest = c.order.drop_first();
            lemma_drop_first_set(c.order);
            assert(!rest.contains(key)) by {
                if rest.contains(key) {
                    let i = choose|i: int| 0 <= i < rest.len() && rest[i] == key;
                    assert(c.order[i + 1] == key);
                }
            }
            lemma_push_set(rest, key);
            assert(c.entries.remove(c.order[0]).insert(key, value).dom() =~= rest.push(
                key,
            ).to_set());
        }
    }
}

/// A stored result is found under its key, where the cache is on.
pub proof fn stored_result_is_found(c: CacheView, key: u64, value: JsonView)
    requires
        sound(c),
        c.cap > 0,
    ensures
        found(after_store(c, key, value), key) == Some(value),
{
}

/// Storing under one key changes the result under another at most by
/// evicting it, and evicts only the least recently used key of a full cache.
pub proof fn only_the_least_recently_used_leaves(
    c: CacheView,
    key: u64,
    value: JsonView,
    other: u64,
)
    requires
        sound(c),
        other != key,
        found(c, other) is Some,
    ensures
        found(after_store(c, key, value), other) == found(c, other) || (found(
            after_store(c, key, value),
            other,
        ) is None && found(c, key) is None && c.order.len() == c.cap && other == c.order[0]),
{
}

/// A lookup changes no result and evicts nothing, and a key just looked up is
/// not the next to leave while another key is held.
pub proof fn lookup_keeps_results(c: CacheView, key: u64, other: u64)
    requires
        sound(c),
    ensures
        found(after_lookup(c, key), other) == found(c, other),
        found(c, key) is Some && c.order.len() > 1 ==> after_lookup(c, key).order[0] != key,
{
    if found(c, key) is Some {
        assert(c.order.contains(key));
        let at = c.order.index_of(key);
        let rest = c.order.remove(at);
        if c.order.len() > 1 {
            assert(rest[0] == if at == 0 {
                c.order[1]
            } else {
                c.order[0]
            });
            assert(after_lookup(c, key).order[0] == rest[0]);
        }
    }
}

/// A cache that is off finds nothing and stays empty.
pub proof fn cache_without_capacity_is_off(c: CacheView, key: u64, value: JsonView)
    requires
        c.cap == 0,
    ensures
        found(c, key) is None,
        after_lookup(c, key) == c,
        after_store(c, key, value) == c,
{
}

impl WrapperCache {
    /// A cache that is off.
    pub fn new() -> (r: Self)
        ensures
            r@ == emptied(0),
            sound(r@),
    {
        let r = WrapperCache {
            cap: 0,
            map: HashMap::new(),
            order: VecDeque::new(),
            hits: 0,
            misses: 0,
        };
        assert(r@.entries =~= Map::empty());
        assert(r@.order =~= Seq::empty());
        assert(r@.order.to_set() =~= r@.entries.dom());
        r
    }

    /// The key of a call of the tool `name` with `args`.
    pub fn key(name: &str, args: &Json) -> (r: u64)
        ensures
            r == call_key(name@, args@),
    {
        let h = utf8::fnv(utf8::FNV_START, name);
        utf8::fnv(h, json::render(args).as_str())
    }

    /// The result of an earlier call, which becomes the most recently used.
    pub fn get(&mut self, name: &str, args: &Json) -> (r: Option<Json>)
        requires
            sound(old(self)@),
        ensures
            sound(final(self)@),
            final(self)@ == after_lookup(old(self)@, call_key(name@, args@)),
            match r {
                Some(v) => found(old(self)@, call_key(name@, args@)) == Some(v@),
                None => found(old(self)@, call_key(name@, args@)) is None,
            },
    {
        if self.cap == 0 {
            return None;
        }
        let k = Self::key(name, args);
        proof {
            cache_stays_sound(self@, k, JsonView::Null);
        }
        let hit = match self.map.get(&k) {
            Some(v) => Some(v.copy()),
            None => None,
        };
        match hit {
            Some(v) => {
                let ghost keys = self.order@;
                assert(keys.contains(k));
                let mut pos: usize = 0;
                while self.order[pos] != k
                    invariant
                        self.order@ == keys,
                        pos < keys.len(),
                        keys.len() == self.order.len(),
                        keys.contains(k),
                        forall|i: int| 0 <= i < pos ==> keys[i] != k,
                    decreases keys.len() - pos,
                {
                    pos += 1;
                    assert(pos < keys.len());
                }
                assert(keys.index_of(k) == pos);
                let _ = self.order.remove(pos);
                self.order.push_back(k);
                self.hits = self.hits.wrapping_add(1);
                Some(v)
            },
            None => {
                self.misses = self.misses.wrapping_add(1);
                None
            },
        }
    }

    /// Stores the result of a call.
    pub fn put(&mut self, name: &str, args: &Json, v: &Json)
        requires
            sound(old(self)@),
        ensures
            sound(final(self)@),
            final(self)@ == after_store(old(self)@, call_key(name@, args@), v@),
    {
        if self.cap == 0 {
            return;
        }
        let k = Self::key(name, args);
        proof {
            cache_stays_sound(self@, k, v@);
        }
        let ghost before = self@;
        if !self.map.contains_key(&k) {
            if self.order.len() >= self.cap {
                if let Some(oldest) = self.order.pop_front() {
                    self.map.remove(&oldest);
                    assert(self@.entries =~= before.entries.remove(oldest));
                    assert(self@.order =~= before.order.drop_first());
                }
            }
            self.order.push_back(k);
        }
        let ghost mid = self@;
        self.map.insert(k, v.copy());
        assert(self@.entries =~= mid.entries.insert(k, v@));
    }

    /// Empties the cache and sets its capacity.
    pub fn reset(&mut self, cap: usize)
        ensures
            sound(final(self)@),
            final(self)@ == emptied(cap as nat),
    {
        self.cap = cap;
        self.map.clear();
        self.order.clear();
        self.hits = 0;
        self.misses = 0;
        assert(self@.entries =~= Map::empty());
        assert(self@.order =~= Seq::empty());
        assert(self@.order.to_set() =~= self@.entries.dom());
    }
}

/// Empties `cache` and sets its capacity; zero switches it off.
pub fn set_cache_capacity(cache: &mut WrapperCache, cap: usize)
    ensures
        sound(final(cache)@),
        final(cache)@ == emptied(cap as nat),
{
    cache.reset(cap);
}

/// Hits, misses, number of results held, and capacity.
pub fn cache_stats(cache: &WrapperCache) -> (r: (u64, u64, usize, usize))
    requires
        sound(cache@),
    ensures
        r.0 == cache@.hits,
        r.1 == cache@.misses,
        r.2 == cache@.order.len(),
        r.3 == cache@.cap,
{
    proof {
        cache@.order.unique_seq_to_set();
        assert(cache.map@.dom() =~= cache@.entries.dom());
    }
    (cache.hits, cache.misses, cache.map.len(), cache.cap)
}

} // verus!
