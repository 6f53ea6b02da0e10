//! The order of ranked items: by falling rank, then by name, then by place.

use vstd::prelude::*;
use vstd::string::*;

use crate::text;

verus! {

/// The rank of an item that has none: the place of zero among the ranks.
/// Positive numbers rank above it in their order, negative ones below it.
pub const NO_RANK: u64 = 0x8000_0000_0000_0000;

/// What an item is ordered by. A greater rank comes first.
pub struct RankKey {
    pub rank: u64,
    pub name: String,
}

/// Whether item `a` comes before item `b`: by falling rank, then by name,
/// then by place.
pub open spec fn comes_first(keys: Seq<RankKey>, a: int, b: int) -> bool {
    keys[a].rank > keys[b].rank || (keys[a].rank == keys[b].rank && (text::comes_before(
        keys[a].name@,
        keys[b].name@,
    ) || (keys[a].name@ == keys[b].name@ && a < b)))
}

/// Whether places stand in the order of their items.
pub open spec fn in_rank_order(keys: Seq<RankKey>, places: Seq<usize>) -> bool {
    forall|i: int, j: int|
        0 <= i < j < places.len() ==> comes_first(
            keys,
            (#[trigger] places[i]) as int,
            (#[trigger] places[j]) as int,
        )
}

/// Whether all places lie in `from..to`.
pub open spec fn all_within(places: Seq<usize>, from: int, to: int) -> bool {
    forall|i: int| 0 <= i < places.len() ==> from <= #[trigger] places[i] < to
}

/// The order of items is transitive and total on different places, and no
/// item comes before itself.
pub proof fn rank_order_is_strict_and_total(keys: Seq<RankKey>, a: int, b: int, c: int)
    ensures
        !comes_first(keys, a, a),
        comes_first(keys, a, b) && comes_first(keys, b, c) ==> comes_first(keys, a, c),
        a != b ==> comes_first(keys, a, b) || comes_first(keys, b, a),
{
    text::text_order_is_total(keys[a].name@, keys[b].name@);
    text::text_order_is_total(keys[a].name@, keys[a].name@);
    if text::comes_before(keys[a].name@, keys[b].name@) && text::comes_before(
        keys[b].name@,
        keys[c].name@,
    ) {
        text::text_order_is_transitive(keys[a].name@, keys[b].name@, keys[c].name@);
    }
}

/// Whether item `a` comes before item `b`.
fn goes_first(keys: &Vec<RankKey>, a: usize, b: usize) -> (r: bool)
    requires
        a < keys@.len(),
        b < keys@.len(),
    ensures
        r == comes_first(keys@, a as int, b as int),
{
    if keys[a].rank != keys[b].rank {
        keys[a].rank > keys[b].rank
    } else if text::same(keys[a].name.as_str(), keys[b].name.as_str()) {
        proof {
            text::text_order_is_total(keys@[a as int].name@, keys@[b as int].name@);
        }
        a < b
    } else {
        text::precedes(keys[a].name.as_str(), keys[b].name.as_str())
    }
}

/// The places of two ordered lists in order.
fn merge(keys: &Vec<RankKey>, left: &Vec<usize>, right: &Vec<usize>, mid: usize) -> (r: Vec<usize>)
    requires
        mid <= keys@.len(),
        in_rank_order(keys@, left@),
        in_rank_order(keys@, right@),
        all_within(left@, 0, mid as int),
        all_within(right@, mid as int, keys@.len() as int),
    ensures
        r@.len() == left@.len() + right@.len(),
        in_rank_order(keys@, r@),
        forall|i: int|
            0 <= i < r@.len() ==> left@.contains(#[trigger] r@[i]) || right@.contains(r@[i]),
{
    let mut out: Vec<usize> = Vec::new();
    let mut i: usize = 0;
    let mut j: usize = 0;
    while i < left.len() || j < right.len()
        invariant
            i <= left@.len(),
            j <= right@.len(),
            mid <= keys@.len(),
            in_rank_order(keys@, left@),
            in_rank_order(keys@, right@),
            all_within(left@, 0, mid as int),
            all_within(right@, mid as int, keys@.len() as int),
            out@.len() == i + j,
            in_rank_order(keys@, out@),
            forall|k: int|
                0 <= k < out@.len() ==> left@.contains(#[trigger] out@[k]) || right@.contains(
                    out@[k],
                ),
            forall|k: int|
                0 <= k < out@.len() && i < left@.len() ==> comes_first(
                    keys@,
                    (#[trigger] out@[k]) as int,
                    left@[i as int] as int,
                ),
            forall|k: int|
                0 <= k < out@.len() && j < right@.len() ==> comes_first(
                    keys@,
                    (#[trigger] out@[k]) as int,
                    right@[j as int] as int,
                ),
        decreases left@.len() - i + right@.len() - j,
    {
        let take_left = if j == right.len() {
            true
        } else if i == left.len() {
            false
        } else {
            goes_first(keys, left[i], right[j])
        };
        let ghost before = out@;
        if take_left {
            let x = left[i];
            assert(left@.contains(x));
            out.push(x);
            proof {
                if i + 1 < left@.len() {
                    assert(comes_first(keys@, x as int, left@[i + 1] as int));
                }
                assert forall|k: int| 0 <= k < out@.len() && i + 1 < left@.len() implies comes_first(
                    keys@,
                    (#[trigger] out@[k]) as int,
                    left@[i + 1] as int,
                ) by {
                    if k < before.len() {
                        assert(out@[k] == before[k]);
                        rank_order_is_strict_and_total(
                            keys@,
                            before[k] as int,
                            x as int,
                            left@[i + 1] as int,
                        );
                    }
                }
            }
            i += 1;
        } else {
            let x = right[j];
            assert(right@.contains(x));
            out.push(x);
            proof {
                if j + 1 < right@.len() {
                    assert(comes_first(keys@, x as int, right@[j + 1] as int));
                }
                if i < left@.len() {
                    rank_order_is_strict_and_total(keys@, left@[i as int] as int, x as int, 0);
                }
                assert forall|k: int| 0 <= k < out@.len() && j + 1
                    < right@.len() implies comes_first(
                    keys@,
                    (#[trigger] out@[k]) as int,
                    right@[j + 1] as int,
                ) by {
                    if k < before.len() {
                        assert(out@[k] == before[k]);
                        rank_order_is_strict_and_total(
                            keys@,
                            before[k] as int,
                            x as int,
                            right@[j + 1] as int,
                        );
                    }
                }
            }
            j += 1;
        }
    }
    out
}

/// The places `from..to` in the order of their items.
fn sort_range(keys: &Vec<RankKey>, from: usize, to: usize) -> (r: Vec<usize>)
    requires
        from <= to <= keys@.len(),
    ensures
        r@.len() == to - from,
        all_within(r@, from as int, to as int),
        in_rank_order(keys@, r@),
    decreases to - from,
{
    let mut out: Vec<usize> = Vec::new();
    if to - from <= 1 {
        if from < to {
            out.push(from);
        }
        return out;
    }
    let mid = from + (to - from) / 2;
    let left = sort_range(keys, from, mid);
    let right = sort_range(keys, mid, to);
    let r = merge(keys, &left, &right, mid);
    assert forall|i: int| 0 <= i < r@.len() implies from <= #[trigger] r@[i] < to by {
        if left@.contains(r@[i]) {
            let k = choose|k: int| 0 <= k < left@.len() && left@[k] == r@[i];
            assert(left@[k] < mid);
        } else {
            let k = choose|k: int| 0 <= k < right@.len() && right@[k] == r@[i];
            assert(right@[k] >= mid);
        }
    }
    r
}

/// The places of all items in their order: each place once.
pub fn rank_order(keys: &Vec<RankKey>) -> (r: Vec<usize>)
    ensures
        r@.len() == keys@.len(),
        all_within(r@, 0, keys@.len() as int),
        in_rank_order(keys@, r@),
        r@.no_duplicates(),
{
    let r = sort_range(keys, 0, keys.len());
    assert forall|i: int, j: int| 0 <= i < r@.len() && 0 <= j < r@.len() && i != j implies r@[i]
        != r@[j] by {
        rank_order_is_strict_and_total(keys@, r@[i] as int, r@[i] as int, 0);
        if i < j {
            assert(comes_first(keys@, r@[i] as int, r@[j] as int));
        } else {
            assert(comes_first(keys@, r@[j] as int, r@[i] as int));
        }
    }
    r
}

} // verus!
