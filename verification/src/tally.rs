//! Counting, adding up and picking out.

use vstd::prelude::*;

verus! {

/// How many of the indices `0..n` satisfy `p`.
pub open spec fn count(p: spec_fn(int) -> bool, n: int) -> nat
    decreases n,
{
    if n <= 0 {
        0
    } else {
        count(p, n - 1) + if p(n - 1) {
            1nat
        } else {
            0nat
        }
    }
}

/// No more indices can satisfy `p` than there are.
pub proof fn lemma_count_fits(p: spec_fn(int) -> bool, n: int)
    requires
        0 <= n,
    ensures
        count(p, n) <= n,
    decreases n,
{
    if n > 0 {
        lemma_count_fits(p, n - 1);
    }
}

/// Where `p` implies `q`, at least as many indices satisfy `q`.
pub proof fn lemma_count_implies(p: spec_fn(int) -> bool, q: spec_fn(int) -> bool, n: int)
    requires
        forall|i: int| 0 <= i < n && #[trigger] p(i) ==> q(i),
    ensures
        count(p, n) <= count(q, n),
    decreases n,
{
    if n > 0 {
        lemma_count_implies(p, q, n - 1);
    }
}

/// What `p` and `q` agree on is counted alike.
pub proof fn lemma_count_same(p: spec_fn(int) -> bool, q: spec_fn(int) -> bool, n: int)
    requires
        forall|i: int| 0 <= i < n ==> #[trigger] p(i) == q(i),
    ensures
        count(p, n) == count(q, n),
    decreases n,
{
    if n > 0 {
        lemma_count_same(p, q, n - 1);
    }
}

/// The values `f(i)` for the indices `i` of `0..n` that satisfy `p`, in order.
pub open spec fn gather<T>(p: spec_fn(int) -> bool, f: spec_fn(int) -> T, n: int) -> Seq<T>
    decreases n,
{
    if n <= 0 {
        Seq::empty()
    } else if p(n - 1) {
        gather(p, f, n - 1).push(f(n - 1))
    } else {
        gather(p, f, n - 1)
    }
}

/// As many values are gathered as indices are counted.
pub proof fn lemma_gather_len<T>(p: spec_fn(int) -> bool, f: spec_fn(int) -> T, n: int)
    ensures
        gather(p, f, n).len() == count(p, n),
    decreases n,
{
    if n > 0 {
        lemma_gather_len(p, f, n - 1);
    }
}

/// Every value gathered stands for an index that satisfies `p`.
pub proof fn lemma_gathered<T>(p: spec_fn(int) -> bool, f: spec_fn(int) -> T, n: int, k: int)
    requires
        0 <= k < gather(p, f, n).len(),
    ensures
        exists|i: int| 0 <= i < n && #[trigger] p(i) && gather(p, f, n)[k] == f(i),
    decreases n,
{
    if n > 0 {
        if p(n - 1) && k == gather(p, f, n - 1).len() {
            assert(gather(p, f, n)[k] == f(n - 1));
        } else {
            lemma_gathered(p, f, n - 1, k);
            let i = choose|i: int|
                0 <= i < n - 1 && #[trigger] p(i) && gather(p, f, n - 1)[k] == f(i);
            assert(p(i) && gather(p, f, n)[k] == f(i));
        }
    }
}

/// The sum of `f(i)` over the indices `0..n`.
pub open spec fn sum(f: spec_fn(int) -> nat, n: int) -> nat
    decreases n,
{
    if n <= 0 {
        0
    } else {
        sum(f, n - 1) + f(n - 1)
    }
}

/// A sum over fewer indices is no larger.
pub proof fn lemma_sum_grows(f: spec_fn(int) -> nat, m: int, n: int)
    requires
        m <= n,
    ensures
        sum(f, m) <= sum(f, n),
    decreases n - m,
{
    if m < n {
        lemma_sum_grows(f, m, n - 1);
    }
}

/// Where `f` is at most `g`, its sum is at most that of `g`.
pub proof fn lemma_sum_at_most(f: spec_fn(int) -> nat, g: spec_fn(int) -> nat, n: int)
    requires
        forall|i: int| 0 <= i < n ==> #[trigger] f(i) <= g(i),
    ensures
        sum(f, n) <= sum(g, n),
    decreases n,
{
    if n > 0 {
        lemma_sum_at_most(f, g, n - 1);
    }
}

/// Counting the indices of the items that satisfy `q` gives as many as there
/// are such items.
pub proof fn law_count_of_items<T>(
    items: Seq<T>,
    q: spec_fn(T) -> bool,
    p: spec_fn(int) -> bool,
)
    requires
        forall|i: int| 0 <= i < items.len() ==> #[trigger] p(i) == q(items[i]),
    ensures
        count(p, items.len() as int) == items.filter(q).len(),
    decreases items.len(),
{
    reveal(Seq::filter);
    if items.len() > 0 {
        let shorter = items.drop_last();
        assert forall|i: int| 0 <= i < shorter.len() implies #[trigger] p(i) == q(shorter[i]) by {
            assert(shorter[i] == items[i]);
        }
        law_count_of_items(shorter, q, p);
        assert(p(items.len() - 1) == q(items.last()));
    }
}

/// The indices below `n`, in order.
pub open spec fn indices(n: nat) -> Seq<int> {
    Seq::new(n, |i: int| i)
}

/// Gathering is filtering the indices and taking the value of each that is
/// left.
pub proof fn law_gather_filters<T>(p: spec_fn(int) -> bool, f: spec_fn(int) -> T, n: nat)
    ensures
        gather(p, f, n as int) == indices(n).filter(p).map_values(f),
        count(p, n as int) == indices(n).filter(p).len(),
    decreases n,
{
    reveal(Seq::filter);
    if n > 0 {
        let m = (n - 1) as nat;
        law_gather_filters(p, f, m);
        assert(indices(n).drop_last() =~= indices(m));
        let kept = indices(m).filter(p);
        assert(kept.push(m as int).map_values(f) =~= kept.map_values(f).push(f(m as int)));
    } else {
        assert(gather(p, f, 0) =~= indices(0).filter(p).map_values(f));
    }
}

/// Every index that satisfies `p` has its value among those gathered.
pub proof fn law_gather_is_complete<T>(
    p: spec_fn(int) -> bool,
    f: spec_fn(int) -> T,
    n: int,
    i: int,
)
    requires
        0 <= i < n,
        p(i),
    ensures
        gather(p, f, n).contains(f(i)),
    decreases n,
{
    let all = gather(p, f, n);
    if i == n - 1 {
        assert(all[all.len() - 1] == f(i));
    } else {
        law_gather_is_complete(p, f, n - 1, i);
        let shorter = gather(p, f, n - 1);
        let k = choose|k: int| 0 <= k < shorter.len() && shorter[k] == f(i);
        assert(all[k] == f(i));
    }
}

/// What `f` and `g` agree on adds up alike.
pub proof fn lemma_sum_same(f: spec_fn(int) -> nat, g: spec_fn(int) -> nat, n: int)
    requires
        forall|i: int| 0 <= i < n ==> #[trigger] f(i) == g(i),
    ensures
        sum(f, n) == sum(g, n),
    decreases n,
{
    if n > 0 {
        lemma_sum_same(f, g, n - 1);
    }
}

} // verus!
