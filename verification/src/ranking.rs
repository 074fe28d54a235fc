//! Ranking by a key, highest first; equal keys keep their order.

use vstd::prelude::*;

verus! {

/// Whether index `a` comes before index `b`: by the higher key, and between
/// equal keys by the lower index.
pub open spec fn ahead(keys: Seq<u64>, a: int, b: int) -> bool {
    keys[a] > keys[b] || (keys[a] == keys[b] && a < b)
}

/// Whether index `k` occurs in `order`.
pub open spec fn lists(order: Seq<usize>, k: int) -> bool {
    exists|i: int| 0 <= i < order.len() && #[trigger] order[i] == k
}

/// Whether `order` lists the indices `lo..hi` of `keys` from first to last.
pub open spec fn ranks_range(keys: Seq<u64>, order: Seq<usize>, lo: int, hi: int) -> bool {
    &&& order.len() == hi - lo
    &&& forall|i: int| 0 <= i < order.len() ==> lo <= #[trigger] order[i] < hi
    &&& forall|i: int, j: int|
        0 <= i < j < order.len() ==> ahead(
            keys,
            #[trigger] order[i] as int,
            #[trigger] order[j] as int,
        )
    &&& forall|k: int| lo <= k < hi ==> #[trigger] lists(order, k)
}

/// Whether `order` lists all indices of `keys` from first to last.
pub open spec fn is_ranking(keys: Seq<u64>, order: Seq<usize>) -> bool {
    ranks_range(keys, order, 0, keys.len() as int)
}

/// The items in the order that `order` gives them.
pub open spec fn arranged<T>(items: Seq<T>, order: Seq<usize>) -> Seq<T> {
    Seq::new(order.len(), |i: int| items[order[i] as int])
}

/// Whether `out` is `items` sorted by descending key, equal keys keeping
/// their order.
pub open spec fn is_sorted_desc<T>(items: Seq<T>, key: spec_fn(T) -> u64, out: Seq<T>) -> bool {
    exists|order: Seq<usize>| #[trigger]
        is_ranking(items.map_values(key), order) && out == arranged(items, order)
}

/// A ranking is the only one of its keys.
pub proof fn law_ranking_is_unique(keys: Seq<u64>, a: Seq<usize>, b: Seq<usize>)
    requires
        is_ranking(keys, a),
        is_ranking(keys, b),
    ensures
        a == b,
{
    assert forall|i: int| 0 <= i < a.len() implies a[i] == b[i] by {
        lemma_agree(keys, a, b, i);
    }
    assert(a =~= b);
}

proof fn lemma_agree(keys: Seq<u64>, a: Seq<usize>, b: Seq<usize>, i: int)
    requires
        is_ranking(keys, a),
        is_ranking(keys, b),
        0 <= i < a.len(),
    ensures
        forall|j: int| 0 <= j <= i ==> a[j] == b[j],
    decreases i,
{
    if i > 0 {
        lemma_agree(keys, a, b, i - 1);
    }
    if a[i] != b[i] {
        assert(lists(b, a[i] as int));
        assert(lists(a, b[i] as int));
        let p = choose|p: int| 0 <= p < b.len() && b[p] == a[i];
        let q = choose|q: int| 0 <= q < a.len() && a[q] == b[i];
        if p < i {
            assert(a[p] == b[p]);
            assert(ahead(keys, a[p] as int, a[i] as int));
        }
        if q < i {
            assert(a[q] == b[q]);
            assert(ahead(keys, b[q] as int, b[i] as int));
        }
        assert(ahead(keys, b[i] as int, b[p] as int));
        assert(ahead(keys, a[i] as int, a[q] as int));
    }
}

/// Sorting by descending key has one result.
pub proof fn law_sorting_is_unique<T>(items: Seq<T>, key: spec_fn(T) -> u64, a: Seq<T>, b: Seq<T>)
    requires
        is_sorted_desc(items, key, a),
        is_sorted_desc(items, key, b),
    ensures
        a == b,
{
    let keys = items.map_values(key);
    let p = choose|p: Seq<usize>| #[trigger] is_ranking(keys, p) && a == arranged(items, p);
    let q = choose|q: Seq<usize>| #[trigger] is_ranking(keys, q) && b == arranged(items, q);
    law_ranking_is_unique(keys, p, q);
}

/// A sorted sequence descends, holds as many items as came in, holds only
/// items that came in, and misses none of them.
pub proof fn law_sorted_items<T>(items: Seq<T>, key: spec_fn(T) -> u64, out: Seq<T>)
    requires
        is_sorted_desc(items, key, out),
    ensures
        out.len() == items.len(),
        forall|i: int, j: int|
            0 <= i <= j < out.len() ==> key(#[trigger] out[i]) >= key(#[trigger] out[j]),
        forall|x: T| #[trigger] out.contains(x) <==> items.contains(x),
{
    let keys = items.map_values(key);
    let order = choose|p: Seq<usize>| #[trigger] is_ranking(keys, p) && out == arranged(items, p);
    assert forall|i: int, j: int| 0 <= i <= j < out.len() implies key(#[trigger] out[i]) >= key(
        #[trigger] out[j],
    ) by {
        if i < j {
            assert(ahead(keys, order[i] as int, order[j] as int));
        }
    }
    assert forall|x: T| #[trigger] out.contains(x) <==> items.contains(x) by {
        if out.contains(x) {
            let i = choose|i: int| 0 <= i < out.len() && out[i] == x;
            assert(items[order[i] as int] == x);
        }
        if items.contains(x) {
            let k = choose|k: int| 0 <= k < items.len() && items[k] == x;
            assert(lists(order, k));
            let i = choose|i: int| 0 <= i < order.len() && order[i] == k;
            assert(i < out.len() && out[i] == items[order[i] as int]);
        }
    }
}

fn merge(
    keys: &Vec<u64>,
    left: &Vec<usize>,
    right: &Vec<usize>,
    Ghost(lo): Ghost<int>,
    Ghost(mid): Ghost<int>,
    Ghost(hi): Ghost<int>,
) -> (out: Vec<usize>)
    requires
        0 <= lo <= mid <= hi <= keys@.len(),
        ranks_range(keys@, left@, lo, mid),
        ranks_range(keys@, right@, mid, hi),
    ensures
        ranks_range(keys@, out@, lo, hi),
{
    let mut out: Vec<usize> = Vec::new();
    let mut i: usize = 0;
    let mut j: usize = 0;
    while i < left.len() || j < right.len()
        invariant
            0 <= lo <= mid <= hi <= keys@.len(),
            ranks_range(keys@, left@, lo, mid),
            ranks_range(keys@, right@, mid, hi),
            i <= left@.len(),
            j <= right@.len(),
            out@.len() == i + j,
            forall|p: int| 0 <= p < out@.len() ==> lo <= #[trigger] out@[p] < hi,
            forall|p: int, q: int|
                0 <= p < q < out@.len() ==> ahead(
                    keys@,
                    #[trigger] out@[p] as int,
                    #[trigger] out@[q] as int,
                ),
            forall|p: int, q: int|
                0 <= p < out@.len() && i <= q < left@.len() ==> ahead(
                    keys@,
                    #[trigger] out@[p] as int,
                    #[trigger] left@[q] as int,
                ),
            forall|p: int, q: int|
                0 <= p < out@.len() && j <= q < right@.len() ==> ahead(
                    keys@,
                    #[trigger] out@[p] as int,
                    #[trigger] right@[q] as int,
                ),
            forall|p: int| 0 <= p < i ==> out@.contains(#[trigger] left@[p]),
            forall|p: int| 0 <= p < j ==> out@.contains(#[trigger] right@[p]),
        decreases left@.len() - i + right@.len() - j,
    {
        let ghost before = out@;
        let from_left: bool = if i < left.len() {
            j >= right.len() || keys[left[i]] >= keys[right[j]]
        } else {
            false
        };
        if from_left {
            proof {
                assert forall|q: int| j <= q < right@.len() implies ahead(
                    keys@,
                    left@[i as int] as int,
                    #[trigger] right@[q] as int,
                ) by {
                    if q > j {
                        assert(ahead(keys@, right@[j as int] as int, right@[q] as int));
                    }
                }
            }
            out.push(left[i]);
            i = i + 1;
        } else {
            proof {
                assert forall|q: int| i <= q < left@.len() implies ahead(
                    keys@,
                    right@[j as int] as int,
                    #[trigger] left@[q] as int,
                ) by {
                    if q > i {
                        assert(ahead(keys@, left@[i as int] as int, left@[q] as int));
                    }
                }
            }
            out.push(right[j]);
            j = j + 1;
        }
        proof {
            assert(out@[out@.len() - 1] == out@.last());
            assert forall|x: usize| before.contains(x) implies out@.contains(x) by {
                let p = choose|p: int| 0 <= p < before.len() && before[p] == x;
                assert(out@[p] == x);
            }
        }
    }
    proof {
        assert forall|k: int| lo <= k < hi implies #[trigger] lists(out@, k) by {
            if k < mid {
                assert(lists(left@, k));
                let p = choose|p: int| 0 <= p < left@.len() && left@[p] == k;
                assert(out@.contains(left@[p]));
            } else {
                assert(lists(right@, k));
                let p = choose|p: int| 0 <= p < right@.len() && right@[p] == k;
                assert(out@.contains(right@[p]));
            }
        }
    }
    out
}

fn rank_range(keys: &Vec<u64>, lo: usize, hi: usize) -> (out: Vec<usize>)
    requires
        lo <= hi <= keys@.len(),
    ensures
        ranks_range(keys@, out@, lo as int, hi as int),
    decreases hi - lo,
{
    if hi - lo == 0 {
        return Vec::new();
    }
    if hi - lo == 1 {
        let mut out: Vec<usize> = Vec::new();
        out.push(lo);
        assert(out@[0] == lo);
        return out;
    }
    let mid: usize = lo + (hi - lo) / 2;
    let left: Vec<usize> = rank_range(keys, lo, mid);
    let right: Vec<usize> = rank_range(keys, mid, hi);
    merge(keys, &left, &right, Ghost(lo as int), Ghost(mid as int), Ghost(hi as int))
}

/// The indices of `keys`, highest key first, equal keys by index.
pub fn rank_desc(keys: &Vec<u64>) -> (out: Vec<usize>)
    ensures
        is_ranking(keys@, out@),
{
    rank_range(keys, 0, keys.len())
}

/// Puts the items in the given order.
pub fn arrange<T: Copy>(items: &Vec<T>, order: &Vec<usize>) -> (out: Vec<T>)
    requires
        forall|i: int| 0 <= i < order@.len() ==> #[trigger] order@[i] < items@.len(),
    ensures
        out@ == arranged(items@, order@),
{
    let mut out: Vec<T> = Vec::with_capacity(order.len());
    let mut i: usize = 0;
    while i < order.len()
        invariant
            i <= order@.len(),
            forall|i: int| 0 <= i < order@.len() ==> #[trigger] order@[i] < items@.len(),
            out@.len() == i,
            forall|j: int| 0 <= j < i ==> out@[j] == items@[#[trigger] order@[j] as int],
        decreases order@.len() - i,
    {
        out.push(items[order[i]]);
        i = i + 1;
    }
    assert(out@ =~= arranged(items@, order@));
    out
}

/// `out` is the first `k` of `items` sorted by descending key.
pub open spec fn is_top<T>(items: Seq<T>, key: spec_fn(T) -> u64, k: nat, out: Seq<T>) -> bool {
    exists|sorted: Seq<T>| #[trigger]
        is_sorted_desc(items, key, sorted) && out == if sorted.len() <= k {
            sorted
        } else {
            sorted.take(k as int)
        }
}

/// A top list is no longer than asked for, descends, holds only items, and
/// leaves an item out only if it is full and nothing in it ranks lower.
pub proof fn law_top_items<T>(items: Seq<T>, key: spec_fn(T) -> u64, k: nat, out: Seq<T>)
    requires
        is_top(items, key, k, out),
    ensures
        out.len() <= k,
        out.len() == k || out.len() == items.len(),
        forall|i: int, j: int|
            0 <= i <= j < out.len() ==> key(#[trigger] out[i]) >= key(#[trigger] out[j]),
        forall|i: int| 0 <= i < out.len() ==> items.contains(#[trigger] out[i]),
        forall|x: T, i: int|
            items.contains(x) && !out.contains(x) && 0 <= i < out.len() ==> out.len() == k
                && #[trigger] key(out[i]) >= #[trigger] key(x),
{
    let sorted = choose|sorted: Seq<T>| #[trigger]
        is_sorted_desc(items, key, sorted) && out == if sorted.len() <= k {
            sorted
        } else {
            sorted.take(k as int)
        };
    law_sorted_items(items, key, sorted);
    assert(forall|i: int| 0 <= i < out.len() ==> #[trigger] out[i] == sorted[i]);
    assert forall|x: T, i: int|
        items.contains(x) && !out.contains(x) && 0 <= i < out.len() implies out.len() == k
        && #[trigger] key(out[i]) >= #[trigger] key(x) by {
        assert(sorted.contains(x));
        let j = choose|j: int| 0 <= j < sorted.len() && sorted[j] == x;
        if j < out.len() {
            assert(out[j] == x);
        }
        assert(key(sorted[i]) >= key(sorted[j]));
    }
}

/// There is only one top list.
pub proof fn law_top_is_unique<T>(
    items: Seq<T>,
    key: spec_fn(T) -> u64,
    k: nat,
    a: Seq<T>,
    b: Seq<T>,
)
    requires
        is_top(items, key, k, a),
        is_top(items, key, k, b),
    ensures
        a == b,
{
    let sa = choose|sorted: Seq<T>| #[trigger]
        is_sorted_desc(items, key, sorted) && a == if sorted.len() <= k {
            sorted
        } else {
            sorted.take(k as int)
        };
    let sb = choose|sorted: Seq<T>| #[trigger]
        is_sorted_desc(items, key, sorted) && b == if sorted.len() <= k {
            sorted
        } else {
            sorted.take(k as int)
        };
    law_sorting_is_unique(items, key, sa, sb);
}

/// An item that is ranked by a number.
pub trait Ranked: Sized {
    spec fn rank_key(self) -> u64;

    fn key(&self) -> (out: u64)
        ensures
            out == self.rank_key(),
    ;
}

/// The number by which items are ranked.
pub open spec fn by_key<T: Ranked>() -> spec_fn(T) -> u64 {
    |x: T| x.rank_key()
}

/// Sorts items, the highest key first; items with the same key keep their order.
pub fn sort_desc<T: Copy + Ranked>(items: &Vec<T>) -> (out: Vec<T>)
    ensures
        is_sorted_desc(items@, by_key::<T>(), out@),
{
    let mut keys: Vec<u64> = Vec::with_capacity(items.len());
    let mut i: usize = 0;
    while i < items.len()
        invariant
            i <= items@.len(),
            keys@ == items@.take(i as int).map_values(by_key::<T>()),
        decreases items@.len() - i,
    {
        keys.push(items[i].key());
        assert(items@.take(i + 1).map_values(by_key::<T>()) =~= items@.take(i as int).map_values(
            by_key::<T>(),
        ).push(items@[i as int].rank_key()));
        i = i + 1;
    }
    assert(items@.take(items@.len() as int) =~= items@);
    let order: Vec<usize> = rank_desc(&keys);
    arrange(items, &order)
}

/// The first `k` items when sorted, the highest key first.
pub fn take_top<T: Copy + Ranked>(items: &Vec<T>, k: usize) -> (out: Vec<T>)
    ensures
        is_top(items@, by_key::<T>(), k as nat, out@),
{
    let mut out: Vec<T> = sort_desc(items);
    let ghost sorted = out@;
    out.truncate(k);
    assert(out@ =~= if sorted.len() <= k {
        sorted
    } else {
        sorted.take(k as int)
    });
    out
}

/// Sorting moves each item to one place: there is an order of the indices, none
/// of them twice, that puts the higher key first and, of two equal keys, the
/// item that came first.
pub proof fn law_sorting_is_stable<T>(items: Seq<T>, key: spec_fn(T) -> u64, out: Seq<T>)
    requires
        is_sorted_desc(items, key, out),
    ensures
        out.len() == items.len(),
        exists|order: Seq<usize>| #[trigger]
            order.no_duplicates() && order.len() == items.len() && (forall|i: int|
                0 <= i < order.len() ==> #[trigger] order[i] < items.len() && out[i]
                    == items[order[i] as int]) && (forall|i: int, j: int|
                0 <= i < j < order.len() ==> {
                    let a = #[trigger] order[i] as int;
                    let b = #[trigger] order[j] as int;
                    key(items[a]) > key(items[b]) || (key(items[a]) == key(items[b]) && a < b)
                }),
{
    let keys = items.map_values(key);
    let order = choose|p: Seq<usize>| #[trigger] is_ranking(keys, p) && out == arranged(items, p);
    assert forall|i: int, j: int| 0 <= i < j < order.len() implies {
        let a = #[trigger] order[i] as int;
        let b = #[trigger] order[j] as int;
        key(items[a]) > key(items[b]) || (key(items[a]) == key(items[b]) && a < b)
    } by {
        assert(ahead(keys, order[i] as int, order[j] as int));
    }
    assert(order.no_duplicates());
}

/// Sorting items of which none occurs twice gives items of which none does.
pub proof fn law_sorting_keeps_items_apart<T>(items: Seq<T>, key: spec_fn(T) -> u64, out: Seq<T>)
    requires
        is_sorted_desc(items, key, out),
        items.no_duplicates(),
    ensures
        out.no_duplicates(),
{
    let keys = items.map_values(key);
    let order = choose|p: Seq<usize>| #[trigger] is_ranking(keys, p) && out == arranged(items, p);
    assert forall|i: int, j: int| 0 <= i < out.len() && 0 <= j < out.len() && i != j implies out[i]
        != out[j] by {
        if i < j {
            assert(ahead(keys, order[i] as int, order[j] as int));
        } else {
            assert(ahead(keys, order[j] as int, order[i] as int));
        }
    }
}

} // verus!
