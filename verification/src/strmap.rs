//! A map from texts to values that remembers the order in which its keys came.

use vstd::prelude::*;
use vstd::string::*;
use vstd::utf8::*;

use crate::text;
use crate::utf8;

use std::collections::HashMap;

verus! {

broadcast use vstd::std_specs::hash::group_hash_axioms;

/// The bucket of a key.
pub open spec fn bucket_of(key: Seq<char>) -> u64 {
    utf8::fnv_from(utf8::FNV_START, encode_utf8(key))
}

/// A map from texts to values. Its keys keep the order in which they were
/// first inserted. Keys are found through buckets by their hash.
pub struct StrMap<V> {
    keys: Vec<String>,
    values: Vec<V>,
    buckets: HashMap<u64, Vec<usize>>,
}

impl<V> StrMap<V> {
    /// The keys in the order in which they came.
    pub closed spec fn order(self) -> Seq<Seq<char>> {
        text::views(self.keys@)
    }

    /// The values in the order of their keys.
    pub closed spec fn in_order(self) -> Seq<V> {
        self.values@
    }

    /// Whether no key occurs twice, every key has a value, and the buckets
    /// lead to every key.
    pub closed spec fn sound(self) -> bool {
        &&& self.keys@.len() == self.values@.len()
        &&& self.order().no_duplicates()
        &&& forall|i: int|
            #![trigger self.keys@[i]]
            0 <= i < self.keys@.len() ==> self.buckets@.dom().contains(bucket_of(self.keys@[i]@))
                && self.buckets@[bucket_of(self.keys@[i]@)]@.contains(i as usize)
        &&& forall|h: u64, k: int|
            #![trigger self.buckets@[h]@[k]]
            self.buckets@.dom().contains(h) && 0 <= k < self.buckets@[h]@.len()
                ==> self.buckets@[h]@[k] < self.keys@.len()
    }

    /// Whether `key` is in the map.
    pub open spec fn has(self, key: Seq<char>) -> bool {
        self.order().contains(key)
    }

    /// The value of `key`.
    pub open spec fn at(self, key: Seq<char>) -> V {
        self.in_order()[self.order().index_of(key)]
    }

    /// The map without keys.
    pub fn new() -> (r: Self)
        ensures
            r.sound(),
            r.order() == Seq::<Seq<char>>::empty(),
            r.in_order() == Seq::<V>::empty(),
    {
        let r = StrMap { keys: Vec::new(), values: Vec::new(), buckets: HashMap::new() };
        assert(r.order() =~= Seq::<Seq<char>>::empty());
        assert(r.in_order() =~= Seq::<V>::empty());
        r
    }

    /// The number of keys.
    pub fn len(&self) -> (r: usize)
        requires
            self.sound(),
        ensures
            r == self.order().len(),
            r == self.in_order().len(),
    {
        self.keys.len()
    }

    /// The key that came as number `i`.
    pub fn key_at(&self, i: usize) -> (r: &str)
        requires
            self.sound(),
            i < self.order().len(),
        ensures
            r@ == self.order()[i as int],
    {
        self.keys[i].as_str()
    }

    /// The value of the key that came as number `i`.
    pub fn value_at(&self, i: usize) -> (r: &V)
        requires
            self.sound(),
            i < self.order().len(),
        ensures
            *r == self.in_order()[i as int],
    {
        &self.values[i]
    }

    /// The number of `key` among the keys.
    pub fn find(&self, key: &str) -> (r: Option<usize>)
        requires
            self.sound(),
        ensures
            match r {
                Some(i) => i < self.order().len() && self.order()[i as int] == key@
                    && self.order().index_of(key@) == i,
                None => !self.has(key@),
            },
    {
        let h = utf8::fnv(utf8::FNV_START, key);
        match self.buckets.get(&h) {
            Some(bucket) => {
                let mut k: usize = 0;
                while k < bucket.len()
                    invariant
                        self.sound(),
                        h == bucket_of(key@),
                        self.buckets@.dom().contains(h),
                        *bucket == self.buckets@[h],
                        k <= bucket@.len(),
                        forall|j: int|
                            0 <= j < k ==> self.keys@[(#[trigger] bucket@[j]) as int]@ != key@,
                    decreases bucket@.len() - k,
                {
                    let i = bucket[k];
                    assert(self.buckets@[h]@[k as int] < self.keys@.len());
                    if text::same(self.keys[i].as_str(), key) {
                        assert(self.order()[i as int] == key@);
                        return Some(i);
                    }
                    k += 1;
                }
                proof {
                    if self.has(key@) {
                        let i = self.order().index_of(key@);
                        assert(self.order()[i] == key@);
                        assert(self.keys@[i]@ == key@);
                        assert(i < self.keys.len());
                        let j = choose|j: int| 0 <= j < bucket@.len() && bucket@[j] == i as usize;
                        assert(self.keys@[bucket@[j] as int]@ != key@);
                    }
                }
                None
            },
            None => {
                proof {
                    if self.has(key@) {
                        let i = self.order().index_of(key@);
                        assert(self.order()[i] == key@);
                        assert(self.keys@[i]@ == key@);
                    }
                }
                None
            },
        }
    }

    /// The value of `key`.
    pub fn get(&self, key: &str) -> (r: Option<&V>)
        requires
            self.sound(),
        ensures
            match r {
                Some(v) => self.has(key@) && *v == self.at(key@),
                None => !self.has(key@),
            },
    {
        match self.find(key) {
            Some(i) => {
                assert(self.order()[i as int] == key@);
                Some(&self.values[i])
            },
            None => None,
        }
    }

    /// Sets the value of `key`. A new key goes last, a known one keeps its place.
    pub fn insert(&mut self, key: &str, value: V)
        requires
            old(self).sound(),
        ensures
            final(self).sound(),
            old(self).has(key@) ==> final(self).order() == old(self).order()
                && final(self).in_order() == old(self).in_order().update(
                old(self).order().index_of(key@),
                value,
            ),
            !old(self).has(key@) ==> final(self).order() == old(self).order().push(key@)
                && final(self).in_order() == old(self).in_order().push(value),
    {
        match self.find(key) {
            Some(i) => {
                self.values.set(i, value);
            },
            None => {
                let ghost before = *self;
                let n = self.keys.len();
                let h = utf8::fnv(utf8::FNV_START, key);
                let mut bucket = match self.buckets.remove(&h) {
                    Some(b) => b,
                    None => Vec::new(),
                };
                let ghost held = bucket@;
                bucket.push(n);
                let ghost full = bucket@;
                self.buckets.insert(h, bucket);
                self.keys.push(key.to_string());
                self.values.push(value);
                assert(self.order() =~= before.order().push(key@));
                assert(full[held.len() as int] == n);
                assert forall|i: int| 0 <= i < self.keys@.len() implies self.buckets@.dom().contains(
                    bucket_of((#[trigger] self.keys@[i])@),
                ) && self.buckets@[bucket_of(self.keys@[i]@)]@.contains(i as usize) by {
                    if i < n {
                        assert(self.keys@[i] == before.keys@[i]);
                        assert(before.buckets@[bucket_of(before.keys@[i]@)]@.contains(i as usize));
                        if bucket_of(self.keys@[i]@) == h {
                            let k = choose|k: int| 0 <= k < held.len() && held[k] == i as usize;
                            assert(full[k] == i as usize);
                        }
                    }
                }
                assert forall|g: u64, k: int|
                    #![trigger self.buckets@[g]@[k]]
                    self.buckets@.dom().contains(g) && 0 <= k
                        < self.buckets@[g]@.len() implies self.buckets@[g]@[k]
                    < self.keys@.len() by {
                    if g == h {
                        if k < held.len() {
                            assert(full[k] == held[k]);
                            assert(before.buckets@[g]@[k] < before.keys@.len());
                        }
                    } else {
                        assert(before.buckets@[g]@[k] < before.keys@.len());
                    }
                }
                assert(self.order().no_duplicates()) by {
                    let all = self.order();
                    assert forall|i: int, j: int|
                        0 <= i < all.len() && 0 <= j < all.len() && i != j implies all[i]
                        != all[j] by {
                        if i < n && j < n {
                            assert(before.order()[i] == all[i] && before.order()[j] == all[j]);
                        } else if i < n {
                            assert(before.order()[i] == all[i]);
                        } else {
                            assert(before.order()[j] == all[j]);
                        }
                    }
                }
            },
        }
    }
}

/// After an insertion, the key has the value, and every other key is as before.
pub proof fn insertion_sets_one_key<V>(
    order: Seq<Seq<char>>,
    values: Seq<V>,
    key: Seq<char>,
    value: V,
    other: Seq<char>,
)
    requires
        order.no_duplicates(),
        order.len() == values.len(),
    ensures
        order.contains(key) ==> values.update(order.index_of(key), value)[order.index_of(key)]
            == value,
        order.contains(key) && order.contains(other) && other != key ==> values.update(
            order.index_of(key),
            value,
        )[order.index_of(other)] == values[order.index_of(other)],
        !order.contains(key) ==> order.push(key).contains(key) && values.push(
            value,
        )[order.push(key).index_of(key)] == value,
        !order.contains(key) && order.contains(other) ==> order.push(key).contains(other)
            && values.push(value)[order.push(key).index_of(other)]
            == values[order.index_of(other)],
{
    if !order.contains(key) {
        let more = order.push(key);
        assert(more[order.len() as int] == key);
        assert(more.index_of(key) == order.len()) by {
            let i = more.index_of(key);
            assert(more[i] == key);
            if i < order.len() {
                assert(order[i] == key);
            }
        }
        if order.contains(other) {
            let i = order.index_of(other);
            assert(more[i] == other);
            let j = more.index_of(other);
            assert(more[j] == other);
            if j < order.len() {
                assert(order[j] == other);
            }
        }
    }
}

/// What an insertion does to the keys and values of a map.
pub proof fn lemma_insert<V>(
    before: StrMap<V>,
    after: StrMap<V>,
    key: Seq<char>,
    value: V,
    other: Seq<char>,
)
    requires
        before.sound(),
        before.has(key) ==> after.order() == before.order() && after.in_order()
            == before.in_order().update(before.order().index_of(key), value),
        !before.has(key) ==> after.order() == before.order().push(key) && after.in_order()
            == before.in_order().push(value),
    ensures
        after.has(other) == (before.has(other) || other == key),
        after.has(other) ==> after.at(other) == (if other == key {
            value
        } else {
            before.at(other)
        }),
{
    insertion_sets_one_key(before.order(), before.in_order(), key, value, other);
    if !before.has(key) {
        let more = before.order().push(key);
        if more.contains(other) && other != key {
            let i = choose|i: int| 0 <= i < more.len() && more[i] == other;
            assert(before.order()[i] == other);
        }
    }
}

/// The value of the key in place `i` stands in place `i`.
pub proof fn lemma_place<V>(m: StrMap<V>, i: int)
    requires
        m.sound(),
        0 <= i < m.order().len(),
    ensures
        m.has(m.order()[i]),
        m.at(m.order()[i]) == m.in_order()[i],
{
    let key = m.order()[i];
    let j = m.order().index_of(key);
    assert(m.order().contains(key));
    assert(m.order()[j] == key);
}

/// No key occurs twice, and every key has a value.
pub proof fn lemma_order<V>(m: StrMap<V>)
    requires
        m.sound(),
    ensures
        m.order().no_duplicates(),
        m.order().len() == m.in_order().len(),
{
}

} // verus!
