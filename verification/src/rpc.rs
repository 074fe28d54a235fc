//! What surrounds the calls to a Solana RPC node: how keys are batched, how
//! replies are matched to them, and what is made of recent fees.

use crate::oracle::Fetched;
use crate::pubkey::Pubkey;
use crate::ranking::{arrange, is_sorted_desc, law_sorted_items, rank_desc};
use vstd::prelude::*;

verus! {

/// How many accounts one call asks for.
pub const ACCOUNTS_PER_CALL: usize = 100;

/// What the batches hold together.
pub open spec fn joined(batches: Seq<Vec<Pubkey>>) -> Seq<Pubkey>
    decreases batches.len(),
{
    if batches.len() == 0 {
        Seq::empty()
    } else {
        joined(batches.drop_last()) + batches.last()@
    }
}

/// Splits keys into batches for one call each: full ones, and a last one with
/// what is left.
pub fn batches(keys: &Vec<Pubkey>) -> (out: Vec<Vec<Pubkey>>)
    ensures
        joined(out@) == keys@,
        forall|i: int| 0 <= i < out@.len() ==> 0 < (#[trigger] out@[i])@.len() <= ACCOUNTS_PER_CALL,
        forall|i: int|
            0 <= i < out@.len() - 1 ==> (#[trigger] out@[i])@.len() == ACCOUNTS_PER_CALL,
{
    let len: usize = keys.len();
    let mut out: Vec<Vec<Pubkey>> = Vec::new();
    let mut from: usize = 0;
    assert(keys@.take(0) =~= Seq::<Pubkey>::empty());
    while from < len
        invariant
            from <= len == keys@.len(),
            joined(out@) == keys@.take(from as int),
            forall|i: int|
                0 <= i < out@.len() ==> 0 < (#[trigger] out@[i])@.len() <= ACCOUNTS_PER_CALL,
            from < len ==> forall|i: int|
                0 <= i < out@.len() ==> (#[trigger] out@[i])@.len() == ACCOUNTS_PER_CALL,
            forall|i: int|
                0 <= i < out@.len() - 1 ==> (#[trigger] out@[i])@.len() == ACCOUNTS_PER_CALL,
        decreases len - from,
    {
        let to: usize = if len - from <= ACCOUNTS_PER_CALL {
            len
        } else {
            from + ACCOUNTS_PER_CALL
        };
        let mut batch: Vec<Pubkey> = Vec::with_capacity(to - from);
        let mut i: usize = from;
        while i < to
            invariant
                from <= i <= to <= keys@.len(),
                batch@ == keys@.subrange(from as int, i as int),
            decreases to - i,
        {
            batch.push(keys[i]);
            assert(keys@.subrange(from as int, i + 1) =~= keys@.subrange(
                from as int,
                i as int,
            ).push(keys@[i as int]));
            i = i + 1;
        }
        let ghost before = out@;
        out.push(batch);
        assert(out@.drop_last() =~= before);
        assert(keys@.take(to as int) =~= keys@.take(from as int) + batch@);
        from = to;
    }
    assert(keys@.take(len as int) =~= keys@);
    out
}

/// Adds the replies for a batch of keys to what was fetched so far: each key
/// with the reply at its place, for as many as there are of both.
pub fn pair_replies(fetched: &mut Vec<Fetched>, keys: &Vec<Pubkey>, replies: Vec<Option<Vec<u8>>>)
    ensures
        final(fetched)@ == old(fetched)@ + Seq::new(
            if keys@.len() <= replies@.len() {
                keys@.len()
            } else {
                replies@.len()
            },
            |i: int| (keys@[i], replies@[i]),
        ),
{
    let ghost start = fetched@;
    let ghost all = replies@;
    let mut replies: Vec<Option<Vec<u8>>> = replies;
    let n: usize = if keys.len() <= replies.len() {
        keys.len()
    } else {
        replies.len()
    };
    let ghost wanted = Seq::new(n as nat, |i: int| (keys@[i], all[i]));
    let mut i: usize = 0;
    while i < n
        invariant
            i <= n <= keys@.len(),
            n <= all.len() == replies@.len(),
            wanted == Seq::new(n as nat, |i: int| (keys@[i], all[i])),
            forall|j: int| i <= j < n ==> #[trigger] replies@[j] == all[j],
            fetched@ == start + wanted.take(i as int),
        decreases n - i,
    {
        let mut reply: Option<Vec<u8>> = None;
        std::mem::swap(&mut reply, &mut replies[i]);
        assert(reply == all[i as int]);
        fetched.push((keys[i], reply));
        assert(wanted.take(i + 1) =~= wanted.take(i as int).push((keys@[i as int], reply)));
        i = i + 1;
    }
    assert(wanted.take(n as int) =~= wanted);
}

/// A number that orders fees from the lowest to the highest.
pub open spec fn cheapness() -> spec_fn(u64) -> u64 {
    |fee: u64| (u64::MAX - fee) as u64
}

/// Whether `m` is the median of the fees: the one in the middle when they are
/// put in ascending order, the upper one of two. Without fees it is zero.
pub open spec fn is_median(fees: Seq<u64>, m: u64) -> bool {
    if fees.len() == 0 {
        m == 0
    } else {
        exists|sorted: Seq<u64>| #[trigger]
            is_sorted_desc(fees, cheapness(), sorted) && m == sorted[sorted.len() as int / 2]
    }
}

/// The median of recent prioritization fees, micro-lamports per compute unit.
pub fn median_priority_fee(fees: &Vec<u64>) -> (out: u64)
    ensures
        is_median(fees@, out),
{
    if fees.len() == 0 {
        return 0;
    }
    let mut keys: Vec<u64> = Vec::with_capacity(fees.len());
    let mut i: usize = 0;
    while i < fees.len()
        invariant
            i <= fees@.len(),
            keys@ == fees@.take(i as int).map_values(cheapness()),
        decreases fees@.len() - i,
    {
        keys.push(u64::MAX - fees[i]);
        assert(fees@.take(i + 1).map_values(cheapness()) =~= fees@.take(i as int).map_values(
            cheapness(),
        ).push((u64::MAX - fees@[i as int]) as u64));
        i = i + 1;
    }
    assert(fees@.take(fees@.len() as int) =~= fees@);
    let order: Vec<usize> = rank_desc(&keys);
    let sorted: Vec<u64> = arrange(fees, &order);
    assert(is_sorted_desc(fees@, cheapness(), sorted@));
    sorted[sorted.len() / 2]
}

/// The median is one of the fees, no fee before it in ascending order is
/// higher and none after it lower.
pub proof fn law_median_is_in_the_middle(fees: Seq<u64>, m: u64)
    requires
        fees.len() > 0,
        is_median(fees, m),
    ensures
        fees.contains(m),
        exists|sorted: Seq<u64>| #[trigger]
            is_sorted_desc(fees, cheapness(), sorted) && sorted.len() == fees.len() && (forall|
                i: int,
            |
                0 <= i < sorted.len() ==> if i <= sorted.len() as int / 2 {
                    #[trigger] sorted[i] <= m
                } else {
                    sorted[i] >= m
                }),
{
    let sorted = choose|sorted: Seq<u64>| #[trigger]
        is_sorted_desc(fees, cheapness(), sorted) && m == sorted[sorted.len() as int / 2];
    law_sorted_items(fees, cheapness(), sorted);
    let mid = sorted.len() as int / 2;
    assert(sorted.contains(sorted[mid]));
    assert forall|i: int| 0 <= i < sorted.len() implies if i <= mid {
        #[trigger] sorted[i] <= m
    } else {
        sorted[i] >= m
    } by {
        if i <= mid {
            assert((cheapness())(sorted[i]) >= (cheapness())(sorted[mid]));
        } else {
            assert((cheapness())(sorted[mid]) >= (cheapness())(sorted[i]));
        }
    }
}

/// Batches hold the keys in order, a hundred to a call: the key at place `j` of
/// batch `i` is the one at `100 * i + j`, every batch but the last is full, and
/// none is empty.
pub proof fn law_batches_hold_a_hundred_keys(
    keys: Vec<Pubkey>,
    out: Vec<Vec<Pubkey>>,
    i: int,
    j: int,
)
    requires
        call_ensures(batches, (&keys,), out),
        0 <= i < out@.len(),
        0 <= j < out@[i]@.len(),
    ensures
        out@[i]@.len() <= 100,
        i < out@.len() - 1 ==> out@[i]@.len() == 100,
        100 * i + j < keys@.len(),
        out@[i]@[j] == keys@[100 * i + j],
{
    lemma_joined(out@, out@.len() as int, i, j);
    assert(out@.take(out@.len() as int) =~= out@);
}

proof fn lemma_joined(all: Seq<Vec<Pubkey>>, n: int, i: int, j: int)
    requires
        0 <= i < n <= all.len(),
        0 <= j < all[i]@.len(),
        forall|k: int| 0 <= k < n - 1 ==> (#[trigger] all[k])@.len() == 100,
    ensures
        joined(all.take(n)).len() == 100 * (n - 1) + all[n - 1]@.len(),
        joined(all.take(n))[100 * i + j] == all[i]@[j],
        i < n - 1 ==> 100 * i + j < 100 * (n - 1),
    decreases n,
{
    assert(all.take(n).drop_last() =~= all.take(n - 1));
    assert(all.take(n).last() == all[n - 1]);
    if n > 1 {
        if i < n - 1 {
            lemma_joined(all, n - 1, i, j);
            assert(all[i]@.len() == 100);
        } else {
            assert(all[n - 2]@.len() == 100);
            lemma_joined(all, n - 1, n - 2, 0);
        }
        assert(all[n - 2]@.len() == 100);
    } else {
        assert(all.take(0) =~= Seq::<Vec<Pubkey>>::empty());
        assert(joined(all.take(0)) =~= Seq::<Pubkey>::empty());
    }
}

/// The batches hold all keys: as many as there are.
pub proof fn law_batches_hold_every_key(keys: Vec<Pubkey>, out: Vec<Vec<Pubkey>>)
    requires
        call_ensures(batches, (&keys,), out),
    ensures
        keys@.len() == 0 <==> out@.len() == 0,
        out@.len() > 0 ==> keys@.len() == 100 * (out@.len() - 1) + out@.last()@.len(),
{
    if out@.len() > 0 {
        let n = out@.len() as int;
        assert(out@[n - 1]@.len() > 0);
        lemma_joined(out@, n, n - 1, 0);
        assert(out@.take(n) =~= out@);
    }
}

/// Replies are matched to keys by place: the reply at `i` is put to the key at
/// `i`, behind what was fetched before, and what has no counterpart is left
/// out.
pub proof fn law_replies_are_matched_by_place(
    fetched: &mut Vec<Fetched>,
    keys: Vec<Pubkey>,
    replies: Vec<Option<Vec<u8>>>,
)
    requires
        call_ensures(pair_replies, (fetched, &keys, replies), ()),
    ensures
        ({
            let n = old(fetched)@.len() as int;
            let m = if keys@.len() < replies@.len() {
                keys@.len() as int
            } else {
                replies@.len() as int
            };
            &&& final(fetched)@.len() == n + m
            &&& forall|i: int| 0 <= i < n ==> #[trigger] final(fetched)@[i] == old(fetched)@[i]
            &&& forall|i: int|
                0 <= i < m ==> #[trigger] final(fetched)@[n + i].0 == keys@[i] && final(fetched)@[n + i].1 == replies@[i]
        }),
{
}

} // verus!
