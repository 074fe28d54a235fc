//! Oracle divergence: mints whose banks do not agree on the price.
//!
//! Banks are grouped by mint and the readings of each mint put in ascending
//! order. Readings that nearly coincide are taken as one, so that several
//! banks pointing at the same oracle do not inflate the number of sources.

use crate::double::{law_order_is_numeric, law_rank_refines_order, Double, ZERO};
use crate::keymap::{ascending, has_key, PubkeyMap};
use crate::pricing::Market;
use crate::pubkey::Pubkey;
use crate::ranking::{
    arrange, by_key, is_sorted_desc, is_top, law_sorted_items, law_top_items, rank_desc, take_top,
    Ranked,
};
use crate::tally::{
    gather, law_count_of_items, law_gather_is_complete, lemma_gather_len, lemma_gathered,
};
use crate::types::{BankConfig, DivergenceRow};
use vstd::prelude::*;

verus! {

/// How many mints a scan reports.
pub const MINTS_KEPT: usize = 8;

/// A bank and its address.
pub type BankEntry = (Pubkey, BankConfig);

/// The price that a bank goes by: its own where the protocol prices itself,
/// else that of its oracle. Only a price above zero is a reading.
pub open spec fn reading(
    entry: BankEntry,
    prices: Map<Pubkey, Double>,
    own: Map<Pubkey, Double>,
    self_priced: bool,
) -> Option<Double> {
    let (key, from) = if self_priced {
        (entry.0, own)
    } else {
        (entry.1.oracle, prices)
    };
    if from.contains_key(key) && Double::of(ZERO).lt(from[key]) {
        Some(from[key])
    } else {
        None
    }
}

/// Whether the bank at `i` has a reading for `mint`.
pub open spec fn reads(
    banks: Seq<BankEntry>,
    prices: Map<Pubkey, Double>,
    own: Map<Pubkey, Double>,
    self_priced: bool,
    mint: Pubkey,
) -> spec_fn(int) -> bool {
    |i: int| banks[i].1.mint == mint && reading(banks[i], prices, own, self_priced) is Some
}

/// The reading of the bank at `i`.
pub open spec fn reading_at(
    banks: Seq<BankEntry>,
    prices: Map<Pubkey, Double>,
    own: Map<Pubkey, Double>,
    self_priced: bool,
) -> spec_fn(int) -> Double {
    |i: int| reading(banks[i], prices, own, self_priced)->0
}

/// All readings for `mint`, in the order of the banks.
pub open spec fn readings(
    banks: Seq<BankEntry>,
    prices: Map<Pubkey, Double>,
    own: Map<Pubkey, Double>,
    self_priced: bool,
    mint: Pubkey,
) -> Seq<Double> {
    gather(
        reads(banks, prices, own, self_priced, mint),
        reading_at(banks, prices, own, self_priced),
        banks.len() as int,
    )
}

/// A number that orders doubles the other way round than their rank.
pub open spec fn falling_rank() -> spec_fn(Double) -> u64 {
    |d: Double| (u64::MAX - d.spec_rank()) as u64
}

/// `out` is `items` in ascending order.
pub open spec fn is_sorted_asc(items: Seq<Double>, out: Seq<Double>) -> bool {
    is_sorted_desc(items, falling_rank(), out)
}

/// The readings for one mint, in ascending order.
pub struct MintQuotes {
    pub mint: Pubkey,
    pub quotes: Vec<Double>,
}

/// Puts doubles in ascending order.
pub fn sort_asc(items: &Vec<Double>) -> (out: Vec<Double>)
    ensures
        is_sorted_asc(items@, out@),
{
    let mut keys: Vec<u64> = Vec::with_capacity(items.len());
    let mut i: usize = 0;
    while i < items.len()
        invariant
            i <= items@.len(),
            keys@ == items@.take(i as int).map_values(falling_rank()),
        decreases items@.len() - i,
    {
        keys.push(u64::MAX - items[i].rank());
        assert(items@.take(i + 1).map_values(falling_rank()) =~= items@.take(i as int).map_values(
            falling_rank(),
        ).push((u64::MAX - items@[i as int].spec_rank()) as u64));
        i = i + 1;
    }
    assert(items@.take(items@.len() as int) =~= items@);
    let order: Vec<usize> = rank_desc(&keys);
    arrange(items, &order)
}

fn read(market: &Market, entry: &BankEntry, own: &PubkeyMap<Double>, self_priced: bool) -> (out:
    Option<Double>)
    ensures
        out == reading(*entry, market@.prices, own@, self_priced),
{
    let price: Option<&Double> = if self_priced {
        own.get(&entry.0)
    } else {
        market.prices.get(&entry.1.oracle)
    };
    match price {
        Some(price) if Double::from_bits(ZERO).less_than(*price) => Some(*price),
        _ => None,
    }
}

fn mint_readings(
    market: &Market,
    own: &PubkeyMap<Double>,
    self_priced: bool,
    mint: Pubkey,
) -> (out: Vec<Double>)
    ensures
        out@ == readings(market.banks.listing(), market@.prices, own@, self_priced, mint),
{
    let banks: &Vec<BankEntry> = market.banks.entries();
    let ghost p = reads(banks@, market@.prices, own@, self_priced, mint);
    let ghost f = reading_at(banks@, market@.prices, own@, self_priced);
    let mut out: Vec<Double> = Vec::new();
    let mut i: usize = 0;
    while i < banks.len()
        invariant
            i <= banks@.len(),
            p == reads(banks@, market@.prices, own@, self_priced, mint),
            f == reading_at(banks@, market@.prices, own@, self_priced),
            out@ == gather(p, f, i as int),
        decreases banks@.len() - i,
    {
        if banks[i].1.mint == mint {
            if let Some(price) = read(market, &banks[i], own, self_priced) {
                out.push(price);
            }
        }
        i = i + 1;
    }
    out
}

/// The mints that some bank has, each once.
fn mints(banks: &Vec<BankEntry>) -> (out: PubkeyMap<bool>)
    ensures
        forall|mint: Pubkey| #[trigger]
            out@.contains_key(mint) <==> exists|i: int|
                0 <= i < banks@.len() && (#[trigger] banks@[i]).1.mint == mint,
{
    let mut out: PubkeyMap<bool> = PubkeyMap::new();
    let mut i: usize = 0;
    while i < banks.len()
        invariant
            i <= banks@.len(),
            forall|mint: Pubkey| #[trigger]
                out@.contains_key(mint) <==> exists|j: int|
                    0 <= j < i && (#[trigger] banks@[j]).1.mint == mint,
        decreases banks@.len() - i,
    {
        let ghost before = out@;
        out.insert(banks[i].1.mint, true);
        assert forall|mint: Pubkey| #[trigger]
            out@.contains_key(mint) <==> exists|j: int|
                0 <= j < i + 1 && (#[trigger] banks@[j]).1.mint == mint by {
            if out@.contains_key(mint) {
                if mint == banks@[i as int].1.mint {
                    assert(banks@[i as int].1.mint == mint);
                } else {
                    assert(before.contains_key(mint));
                }
            }
            if exists|j: int| 0 <= j < i + 1 && (#[trigger] banks@[j]).1.mint == mint {
                let j = choose|j: int| 0 <= j < i + 1 && (#[trigger] banks@[j]).1.mint == mint;
                if j < i {
                    assert(before.contains_key(mint));
                }
            }
        }
        i = i + 1;
    }
    out
}

/// Whether `group` is the mint and the readings of `mint` in order.
pub open spec fn is_group(
    banks: Seq<BankEntry>,
    prices: Map<Pubkey, Double>,
    own: Map<Pubkey, Double>,
    self_priced: bool,
    group: MintQuotes,
) -> bool {
    is_sorted_asc(readings(banks, prices, own, self_priced, group.mint), group.quotes@)
}

/// Whether some group is of `mint`.
pub open spec fn has_group(groups: Seq<MintQuotes>, mint: Pubkey) -> bool {
    exists|g: int| 0 <= g < groups.len() && (#[trigger] groups[g]).mint == mint
}

/// The readings of every mint that has one, mint by mint.
pub fn quotes_by_mint(market: &Market, own: &PubkeyMap<Double>, self_priced: bool) -> (out: Vec<
    MintQuotes,
>)
    ensures
        forall|g: int|
            0 <= g < out@.len() ==> is_group(
                market.banks.listing(),
                market@.prices,
                own@,
                self_priced,
                #[trigger] out@[g],
            ),
        forall|g: int, h: int|
            0 <= g < h < out@.len() ==> (#[trigger] out@[g]).mint.below((#[trigger] out@[h]).mint),
        forall|mint: Pubkey| #[trigger]
            has_group(out@, mint) <==> readings(
                market.banks.listing(),
                market@.prices,
                own@,
                self_priced,
                mint,
            ).len() > 0,
{
    let banks: &Vec<BankEntry> = market.banks.entries();
    let all: PubkeyMap<bool> = mints(banks);
    let order: &Vec<(Pubkey, bool)> = all.entries();
    let mut out: Vec<MintQuotes> = Vec::new();
    let mut i: usize = 0;
    while i < order.len()
        invariant
            i <= order@.len(),
            banks@ == market.banks.listing(),
            ascending(order@),
            forall|g: int|
                0 <= g < out@.len() ==> is_group(
                    banks@,
                    market@.prices,
                    own@,
                    self_priced,
                    #[trigger] out@[g],
                ),
            forall|g: int|
                0 <= g < out@.len() ==> exists|j: int|
                    0 <= j < i && (#[trigger] order@[j]).0 == (#[trigger] out@[g]).mint,
            forall|g: int, h: int|
                0 <= g < h < out@.len() ==> (#[trigger] out@[g]).mint.below(
                    (#[trigger] out@[h]).mint,
                ),
            forall|j: int|
                0 <= j < i ==> (has_group(out@, (#[trigger] order@[j]).0) <==> readings(
                    banks@,
                    market@.prices,
                    own@,
                    self_priced,
                    order@[j].0,
                ).len() > 0),
        decreases order@.len() - i,
    {
        let mint: Pubkey = order[i].0;
        let found: Vec<Double> = mint_readings(market, own, self_priced, mint);
        let ghost before = out@;
        if found.len() > 0 {
            let quotes: Vec<Double> = sort_asc(&found);
            out.push(MintQuotes { mint, quotes });
            proof {
                assert(out@[before.len() as int].mint == mint);
                assert forall|g: int| 0 <= g < before.len() implies (#[trigger] out@[g]).mint.below(
                    mint,
                ) by {
                    assert(out@[g] == before[g]);
                    let j = choose|j: int| 0 <= j < i && (#[trigger] order@[j]).0 == before[g].mint;
                    assert(order@[j].0.below(order@[i as int].0));
                }
            }
        }
        proof {
            assert forall|j: int| 0 <= j < i + 1 implies (has_group(out@, (#[trigger] order@[j]).0)
                <==> readings(
                banks@,
                market@.prices,
                own@,
                self_priced,
                order@[j].0,
            ).len() > 0) by {
                if j < i {
                    assert(order@[j].0.below(order@[i as int].0));
                    if has_group(before, order@[j].0) {
                        let g = choose|g: int|
                            0 <= g < before.len() && (#[trigger] before[g]).mint == order@[j].0;
                        assert(out@[g] == before[g]);
                    }
                    if has_group(out@, order@[j].0) {
                        let g = choose|g: int|
                            0 <= g < out@.len() && (#[trigger] out@[g]).mint == order@[j].0;
                        assert(out@[g] == before[g]);
                    }
                } else {
                    if found@.len() > 0 {
                        assert(out@[before.len() as int].mint == order@[j].0);
                    } else if has_group(out@, order@[j].0) {
                        let g = choose|g: int|
                            0 <= g < before.len() && (#[trigger] before[g]).mint == order@[j].0;
                        let q = choose|q: int|
                            0 <= q < i && (#[trigger] order@[q]).0 == before[g].mint;
                        assert(order@[q].0.below(order@[i as int].0));
                    }
                }
            }
            assert forall|g: int| 0 <= g < out@.len() implies exists|j: int|
                0 <= j < i + 1 && (#[trigger] order@[j]).0 == (#[trigger] out@[g]).mint by {
                if g < before.len() {
                    assert(out@[g] == before[g]);
                    let j = choose|j: int| 0 <= j < i && (#[trigger] order@[j]).0 == before[g].mint;
                    assert(order@[j].0 == out@[g].mint);
                } else {
                    assert(order@[i as int].0 == out@[g].mint);
                }
            }
        }
        i = i + 1;
    }
    proof {
        assert forall|mint: Pubkey| #[trigger]
            has_group(out@, mint) <==> readings(
                market.banks.listing(),
                market@.prices,
                own@,
                self_priced,
                mint,
            ).len() > 0 by {
            let p = reads(banks@, market@.prices, own@, self_priced, mint);
            let f = reading_at(banks@, market@.prices, own@, self_priced);
            if readings(banks@, market@.prices, own@, self_priced, mint).len() > 0 {
                lemma_gathered(p, f, banks@.len() as int, 0);
                let b = choose|b: int| 0 <= b < banks@.len() && #[trigger] p(b);
                assert(banks@[b].1.mint == mint);
                assert(all@.contains_key(mint));
                assert(has_key(order@, mint));
            }
            if has_group(out@, mint) {
                let g = choose|g: int| 0 <= g < out@.len() && (#[trigger] out@[g]).mint == mint;
                assert(out@[g].mint == mint);
            }
        }
    }
    out
}

/// Which of the first `n` readings are kept: the first, and each that is not
/// near the one kept last.
pub open spec fn kept(near: Seq<Vec<bool>>, n: int) -> Seq<int>
    decreases n,
{
    if n <= 0 {
        Seq::empty()
    } else {
        let before = kept(near, n - 1);
        if before.len() > 0 && near[n - 1]@[before.last()] {
            before
        } else {
            before.push(n - 1)
        }
    }
}

/// Whether `near` says of each of `n` readings whether it is near each of
/// them.
pub open spec fn is_square(near: Seq<Vec<bool>>, n: int) -> bool {
    &&& near.len() == n
    &&& forall|i: int| 0 <= i < n ==> (#[trigger] near[i])@.len() == n
}

/// A mint with readings that differ.
#[derive(Clone, Copy, PartialEq, Eq, Structural, Debug)]
pub struct Disagreement {
    pub mint: Pubkey,
    pub sources: usize,
    pub min_price: Double,
    pub max_price: Double,
}

/// What the readings of a mint disagree on: nothing if all nearly coincide.
pub open spec fn disagreement_of(
    mint: Pubkey,
    quotes: Seq<Double>,
    near: Seq<Vec<bool>>,
) -> Option<Disagreement> {
    let distinct = kept(near, quotes.len() as int);
    if distinct.len() < 2 {
        None
    } else {
        Some(
            Disagreement {
                mint,
                sources: distinct.len() as usize,
                min_price: quotes[distinct.first()],
                max_price: quotes[distinct.last()],
            },
        )
    }
}

proof fn lemma_kept(near: Seq<Vec<bool>>, n: int)
    requires
        0 <= n,
    ensures
        kept(near, n).len() <= n,
        n > 0 ==> kept(near, n).len() > 0 && kept(near, n).first() == 0,
        forall|a: int| 0 <= a < kept(near, n).len() ==> 0 <= #[trigger] kept(near, n)[a] < n,
        forall|a: int, b: int|
            0 <= a < b < kept(near, n).len() ==> #[trigger] kept(near, n)[a] < #[trigger] kept(
                near,
                n,
            )[b],
    decreases n,
{
    if n > 0 {
        lemma_kept(near, n - 1);
    }
}

/// Takes readings that nearly coincide as one and reports what is left, if
/// that is more than one. `near[i][j]` says whether reading `i` is near
/// reading `j`.
pub fn find_disagreement(group: &MintQuotes, near: &Vec<Vec<bool>>) -> (out: Option<Disagreement>)
    requires
        is_square(near@, group.quotes@.len() as int),
    ensures
        out == disagreement_of(group.mint, group.quotes@, near@),
{
    let quotes: &Vec<Double> = &group.quotes;
    if quotes.len() == 0 {
        return None;
    }
    let mut sources: usize = 1;
    let mut last: usize = 0;
    let mut i: usize = 1;
    proof {
        reveal_with_fuel(kept, 2);
    }
    while i < quotes.len()
        invariant
            1 <= i <= quotes@.len(),
            is_square(near@, quotes@.len() as int),
            sources == kept(near@, i as int).len(),
            1 <= sources <= i,
            last == kept(near@, i as int).last(),
            last < i,
        decreases quotes@.len() - i,
    {
        proof {
            lemma_kept(near@, i as int);
            assert(near@[i as int]@.len() == quotes@.len());
        }
        if !near[i][last] {
            sources = sources + 1;
            last = i;
        }
        i = i + 1;
    }
    proof {
        lemma_kept(near@, i as int);
    }
    if sources < 2 {
        return None;
    }
    Some(
        Disagreement {
            mint: group.mint,
            sources,
            min_price: quotes[0],
            max_price: quotes[last],
        },
    )
}

/// A disagreement with its spread, as the dashboard shows it.
pub open spec fn divergence_row() -> spec_fn((Disagreement, Double)) -> DivergenceRow {
    |found: (Disagreement, Double)|
        DivergenceRow {
            mint: found.0.mint,
            sources: found.0.sources,
            min_price: found.0.min_price,
            max_price: found.0.max_price,
            spread_pct: found.1,
        }
}

pub open spec fn spread_rank() -> spec_fn(DivergenceRow) -> u64 {
    |r: DivergenceRow| r.spread_pct.spec_rank()
}

impl Ranked for DivergenceRow {
    open spec fn rank_key(self) -> u64 {
        self.spread_pct.spec_rank()
    }

    fn key(&self) -> u64 {
        self.spread_pct.rank()
    }
}

/// The disagreements with the widest spread in percent, widest first.
pub fn widest(found: &Vec<(Disagreement, Double)>) -> (out: Vec<DivergenceRow>)
    ensures
        is_top(found@.map_values(divergence_row()), spread_rank(), MINTS_KEPT as nat, out@),
{
    let mut rows: Vec<DivergenceRow> = Vec::with_capacity(found.len());
    let mut i: usize = 0;
    while i < found.len()
        invariant
            i <= found@.len(),
            rows@ == found@.take(i as int).map_values(divergence_row()),
        decreases found@.len() - i,
    {
        let row: DivergenceRow = DivergenceRow {
            mint: found[i].0.mint,
            sources: found[i].0.sources,
            min_price: found[i].0.min_price,
            max_price: found[i].0.max_price,
            spread_pct: found[i].1,
        };
        rows.push(row);
        assert(found@.take(i + 1).map_values(divergence_row()) =~= found@.take(
            i as int,
        ).map_values(divergence_row()).push(row));
        i = i + 1;
    }
    assert(found@.take(found@.len() as int) =~= found@);
    assert(by_key::<DivergenceRow>() =~= spread_rank());
    take_top(&rows, MINTS_KEPT)
}

/// Readings are above zero, and so are the lowest and the highest price of a
/// disagreement among them; the lowest is at most the highest.
pub proof fn law_disagreement_is_ordered(
    banks: Seq<BankEntry>,
    prices: Map<Pubkey, Double>,
    own: Map<Pubkey, Double>,
    self_priced: bool,
    group: MintQuotes,
    near: Seq<Vec<bool>>,
)
    requires
        is_group(banks, prices, own, self_priced, group),
        is_square(near, group.quotes@.len() as int),
        disagreement_of(group.mint, group.quotes@, near) is Some,
    ensures
        ({
            let d = disagreement_of(group.mint, group.quotes@, near)->0;
            &&& Double::of(ZERO).lt(d.min_price)
            &&& d.min_price.le(d.max_price)
            &&& forall|i: int|
                0 <= i < group.quotes@.len() ==> d.min_price.le(#[trigger] group.quotes@[i])
            &&& 2 <= d.sources <= group.quotes@.len()
        }),
{
    let all = readings(banks, prices, own, self_priced, group.mint);
    let quotes = group.quotes@;
    let n = quotes.len() as int;
    law_sorted_items(all, falling_rank(), quotes);
    lemma_kept(near, n);
    assert forall|i: int| 0 <= i < n implies Double::of(ZERO).lt(#[trigger] quotes[i]) by {
        assert(quotes.contains(quotes[i]));
        let k = choose|k: int| 0 <= k < all.len() && all[k] == quotes[i];
        lemma_gathered(
            reads(banks, prices, own, self_priced, group.mint),
            reading_at(banks, prices, own, self_priced),
            banks.len() as int,
            k,
        );
    }
    assert forall|i: int, j: int| 0 <= i <= j < n implies (#[trigger] quotes[i]).le(
        #[trigger] quotes[j],
    ) by {
        assert((falling_rank())(quotes[i]) >= (falling_rank())(quotes[j]));
    }
    assert(group.quotes.len() == n);
}

/// A chain of readings that stand for all: it starts with the first, each one
/// is not near the one before it in the chain, and the readings between two of
/// them, and after the last, are near the one that they follow.
pub open spec fn is_chain(chain: Seq<int>, near: Seq<Vec<bool>>, n: int) -> bool {
    &&& chain.len() > 0
    &&& chain[0] == 0
    &&& forall|a: int| 0 <= a < chain.len() ==> 0 <= #[trigger] chain[a] < n
    &&& forall|a: int, b: int|
        0 <= a < b < chain.len() ==> #[trigger] chain[a] < #[trigger] chain[b]
    &&& forall|a: int, b: int|
        0 <= a && b == a + 1 && b < chain.len() ==> !near[#[trigger] chain[b]]@[#[trigger] chain[a]]
    &&& forall|a: int, i: int|
        0 <= a < chain.len() && #[trigger] chain[a] < i < n && (forall|b: int|
            a < b < chain.len() ==> i < #[trigger] chain[b]) ==> (#[trigger] near[i])@[chain[a]]
}

proof fn lemma_kept_is_chain(chain: Seq<int>, near: Seq<Vec<bool>>, n: int, t: int, m: int)
    requires
        is_chain(chain, near, n),
        1 <= m <= n,
        1 <= t <= chain.len(),
        chain[t - 1] < m,
        t < chain.len() ==> m <= chain[t],
    ensures
        kept(near, m) == chain.take(t),
    decreases m,
{
    if m == 1 {
        if t > 1 {
            assert(chain[0] < chain[t - 1]);
        }
        reveal_with_fuel(kept, 2);
        assert(kept(near, 1) =~= chain.take(1));
    } else if chain[t - 1] == m - 1 {
        assert(chain[t - 2] < chain[t - 1]);
        lemma_kept_is_chain(chain, near, n, t - 1, m - 1);
        assert(chain.take(t - 1).last() == chain[t - 2]);
        assert(!near[chain[t - 1]]@[chain[t - 2]]);
        assert(chain.take(t) =~= chain.take(t - 1).push(m - 1));
    } else {
        lemma_kept_is_chain(chain, near, n, t, m - 1);
        assert(chain.take(t).last() == chain[t - 1]);
        assert forall|b: int| t - 1 < b < chain.len() implies m - 1 < #[trigger] chain[b] by {
            if b > t {
                assert(chain[t] < chain[b]);
            }
        }
        assert(near[m - 1]@[chain[t - 1]]);
    }
}

proof fn lemma_chain_exists(near: Seq<Vec<bool>>, n: int)
    requires
        0 < n,
    ensures
        is_chain(kept(near, n), near, n),
    decreases n,
{
    reveal_with_fuel(kept, 2);
    if n > 1 {
        let before = kept(near, n - 1);
        let all = kept(near, n);
        lemma_chain_exists(near, n - 1);
        lemma_kept(near, n);
        assert(forall|b: int| 0 <= b < before.len() ==> #[trigger] all[b] == before[b]);
        assert forall|a: int, i: int|
            0 <= a < all.len() && #[trigger] all[a] < i < n && (forall|b: int|
                a < b < all.len() ==> i < #[trigger] all[b]) implies (
        #[trigger] near[i])@[all[a]] by {
            if a < before.len() {
                assert forall|b: int| a < b < before.len() implies i < #[trigger] before[b] by {
                    assert(all[b] == before[b]);
                }
                if i < n - 1 {
                    assert(before[a] < i);
                    assert(near[i]@[before[a]]);
                } else if a < before.len() - 1 {
                    assert(before[before.len() - 1] < n - 1);
                    assert(all[before.len() - 1] > i);
                } else if all.len() > before.len() {
                    assert(all[before.len() as int] > i);
                } else {
                    assert(before.last() == before[a]);
                }
            }
        }
        assert forall|a: int, b: int|
            0 <= a && b == a + 1 && b < all.len() implies !near[#[trigger] all[b]]@[#[trigger] all[a]] by {
            assert(all[a] == before[a]);
            if b < before.len() {
                assert(all[b] == before[b]);
            }
        }
    }
}

/// What is reported of the readings of a mint: they disagree as soon as the
/// chain that stands for them has a second reading, and then the sources are
/// the readings of the chain, from the first to the last. There is such a chain
/// wherever there is a reading.
pub proof fn law_disagreement_is_the_chain(
    mint: Pubkey,
    quotes: Seq<Double>,
    near: Seq<Vec<bool>>,
    chain: Seq<int>,
)
    requires
        0 < quotes.len() <= usize::MAX,
        is_chain(chain, near, quotes.len() as int),
    ensures
        disagreement_of(mint, quotes, near) == if chain.len() >= 2 {
            Some(
                Disagreement {
                    mint,
                    sources: chain.len() as usize,
                    min_price: quotes[0],
                    max_price: quotes[chain.last()],
                },
            )
        } else {
            None
        },
        exists|c: Seq<int>| is_chain(c, near, quotes.len() as int),
{
    let n = quotes.len() as int;
    lemma_kept_is_chain(chain, near, n, chain.len() as int, n);
    assert(chain.take(chain.len() as int) =~= chain);
    lemma_chain_exists(near, n);
}

/// The readings of a mint agree exactly when each is near the first, which is
/// the lowest; as soon as one is not, a disagreement is reported, of no less
/// than two sources. Where being near a reading ends somewhere on the way up,
/// as it does for readings in ascending order, the highest price of the
/// disagreement is a reading that is not near the lowest, and every reading
/// after it is near it.
pub proof fn law_disagreement_is_reported(
    mint: Pubkey,
    quotes: Seq<Double>,
    near: Seq<Vec<bool>>,
)
    requires
        quotes.len() <= usize::MAX,
    ensures
        disagreement_of(mint, quotes, near) is None <==> forall|i: int|
            0 < i < quotes.len() ==> (#[trigger] near[i])@[0],
        disagreement_of(mint, quotes, near) matches Some(d) ==> {
            &&& d.mint == mint
            &&& 2 <= d.sources <= quotes.len()
            &&& d.min_price == quotes[0]
            &&& (forall|i: int, j: int, k: int|
                0 <= j <= i <= k < quotes.len() && #[trigger] near[k]@[j] ==> #[trigger] near[i]@[j])
                ==> exists|k: int|
                0 < k < quotes.len() && d.max_price == quotes[k] && !(#[trigger] near[k])@[0] && (
                forall|i: int| k < i < quotes.len() ==> (#[trigger] near[i])@[k])
        },
{
    let n = quotes.len() as int;
    if n > 0 {
        let c = kept(near, n);
        lemma_chain_exists(near, n);
        lemma_kept(near, n);
        if c.len() < 2 {
            assert forall|i: int| 0 < i < n implies (#[trigger] near[i])@[0] by {
                assert(c[0] < i);
            }
        } else {
            assert(!near[c[1]]@[c[0]]);
            let k = c.last();
            assert(c[c.len() - 1] == k);
            assert(c[0] < c[c.len() - 1]);
            assert forall|i: int| k < i < n implies (#[trigger] near[i])@[k] by {
                assert(c[c.len() - 1] < i);
            }
            if forall|i: int, j: int, k: int|
                0 <= j <= i <= k < n && #[trigger] near[k]@[j] ==> #[trigger] near[i]@[j] {
                if near[k]@[0] {
                    if c.len() > 2 {
                        assert(c[1] < c[c.len() - 1]);
                    }
                    assert(near[c[1]]@[0]);
                }
                assert(0 < k < n && quotes[k] == quotes[c.last()] && !near[k]@[0]);
            }
        }
    }
}

/// The price above zero that a bank goes by, where it has one: its own where
/// the protocol prices itself, else that of its oracle.
pub open spec fn goes_by(
    entry: BankEntry,
    prices: Map<Pubkey, Double>,
    own: Map<Pubkey, Double>,
    self_priced: bool,
    price: Double,
) -> bool {
    &&& if self_priced {
        own.contains_key(entry.0) && own[entry.0] == price
    } else {
        prices.contains_key(entry.1.oracle) && prices[entry.1.oracle] == price
    }
    &&& !price.is_nan()
    &&& price.units() > 0
}

/// Whether a bank is of the mint and goes by a price above zero.
pub open spec fn quotes_mint(
    entry: BankEntry,
    prices: Map<Pubkey, Double>,
    own: Map<Pubkey, Double>,
    self_priced: bool,
    mint: Pubkey,
) -> bool {
    entry.1.mint == mint && exists|price: Double| #[trigger]
        goes_by(entry, prices, own, self_priced, price)
}

proof fn lemma_reads(
    banks: Seq<BankEntry>,
    prices: Map<Pubkey, Double>,
    own: Map<Pubkey, Double>,
    self_priced: bool,
    mint: Pubkey,
    i: int,
)
    ensures
        (reads(banks, prices, own, self_priced, mint))(i) == quotes_mint(
            banks[i],
            prices,
            own,
            self_priced,
            mint,
        ),
        (reads(banks, prices, own, self_priced, mint))(i) ==> goes_by(
            banks[i],
            prices,
            own,
            self_priced,
            (reading_at(banks, prices, own, self_priced))(i),
        ),
        forall|price: Double| #[trigger]
            goes_by(banks[i], prices, own, self_priced, price) ==> (reading_at(
                banks,
                prices,
                own,
                self_priced,
            ))(i) == price,
{
    let from = if self_priced {
        own[banks[i].0]
    } else {
        prices[banks[i].1.oracle]
    };
    assert(Double::of(ZERO).units() == 0);
    if !from.is_nan() {
        law_order_is_numeric(Double::of(ZERO), from);
    }
    if reading(banks[i], prices, own, self_priced) is Some {
        assert(goes_by(banks[i], prices, own, self_priced, from));
    }
    assert forall|price: Double| #[trigger]
        goes_by(banks[i], prices, own, self_priced, price) implies (reading_at(
        banks,
        prices,
        own,
        self_priced,
    ))(i) == price by {
        assert(price == from);
    }
}

/// The readings of a mint are the prices above zero that its banks go by, one
/// for each such bank, in ascending order.
pub proof fn law_group_holds_the_readings(
    banks: Seq<BankEntry>,
    prices: Map<Pubkey, Double>,
    own: Map<Pubkey, Double>,
    self_priced: bool,
    group: MintQuotes,
)
    requires
        is_group(banks, prices, own, self_priced, group),
    ensures
        group.quotes@.len() == banks.filter(
            |e: BankEntry| quotes_mint(e, prices, own, self_priced, group.mint),
        ).len(),
        forall|i: int, price: Double|
            0 <= i < banks.len() && (#[trigger] banks[i]).1.mint == group.mint && #[trigger] goes_by(
                banks[i],
                prices,
                own,
                self_priced,
                price,
            ) ==> group.quotes@.contains(price),
        forall|k: int|
            0 <= k < group.quotes@.len() ==> is_quoted(
                banks,
                prices,
                own,
                self_priced,
                group.mint,
                #[trigger] group.quotes@[k],
            ),
        forall|j: int, k: int|
            0 <= j < k < group.quotes@.len() ==> (#[trigger] group.quotes@[j]).units() <= (
            #[trigger] group.quotes@[k]).units(),
{
    let mint = group.mint;
    let quotes = group.quotes@;
    let n = banks.len() as int;
    let p = reads(banks, prices, own, self_priced, mint);
    let f = reading_at(banks, prices, own, self_priced);
    let all = readings(banks, prices, own, self_priced, mint);
    let q = |e: BankEntry| quotes_mint(e, prices, own, self_priced, mint);
    law_sorted_items(all, falling_rank(), quotes);
    lemma_gather_len(p, f, n);
    assert forall|i: int| 0 <= i < n implies #[trigger] p(i) == q(banks[i]) by {
        lemma_reads(banks, prices, own, self_priced, mint, i);
    }
    law_count_of_items(banks, q, p);
    assert forall|i: int, price: Double|
        0 <= i < n && (#[trigger] banks[i]).1.mint == mint && #[trigger] goes_by(
            banks[i],
            prices,
            own,
            self_priced,
            price,
        ) implies quotes.contains(price) by {
        lemma_reads(banks, prices, own, self_priced, mint, i);
        assert(p(i));
        law_gather_is_complete(p, f, n, i);
        assert(all.contains(price));
    }
    assert forall|k: int| 0 <= k < quotes.len() implies is_quoted(
        banks,
        prices,
        own,
        self_priced,
        mint,
        #[trigger] quotes[k],
    ) by {
        assert(quotes.contains(quotes[k]));
        let a = choose|a: int| 0 <= a < all.len() && all[a] == quotes[k];
        lemma_gathered(p, f, n, a);
        let i = choose|i: int| 0 <= i < n && #[trigger] p(i) && all[a] == f(i);
        lemma_reads(banks, prices, own, self_priced, mint, i);
        assert(goes_by(banks[i], prices, own, self_priced, quotes[k]));
    }
    assert forall|j: int, k: int| 0 <= j < k < quotes.len() implies (
    #[trigger] quotes[j]).units() <= (#[trigger] quotes[k]).units() by {
        assert((falling_rank())(quotes[j]) >= (falling_rank())(quotes[k]));
        assert(is_quoted(banks, prices, own, self_priced, mint, quotes[j]));
        assert(is_quoted(banks, prices, own, self_priced, mint, quotes[k]));
        law_rank_refines_order(quotes[k], quotes[j]);
        law_order_is_numeric(quotes[k], quotes[j]);
    }
}

/// Whether some bank of the mint goes by the price.
pub open spec fn is_quoted(
    banks: Seq<BankEntry>,
    prices: Map<Pubkey, Double>,
    own: Map<Pubkey, Double>,
    self_priced: bool,
    mint: Pubkey,
    price: Double,
) -> bool {
    exists|i: int|
        0 <= i < banks.len() && (#[trigger] banks[i]).1.mint == mint && goes_by(
            banks[i],
            prices,
            own,
            self_priced,
            price,
        )
}

/// Every mint that some bank quotes has a group, one, and no other mint has.
pub proof fn law_every_quoted_mint_has_a_group(
    market: Market,
    own: PubkeyMap<Double>,
    self_priced: bool,
    out: Vec<MintQuotes>,
    mint: Pubkey,
)
    requires
        call_ensures(quotes_by_mint, (&market, &own, self_priced), out),
    ensures
        (exists|g: int| 0 <= g < out@.len() && (#[trigger] out@[g]).mint == mint) <==> exists|i: int|
            0 <= i < market.banks.listing().len() && quotes_mint(
                #[trigger] market.banks.listing()[i],
                market@.prices,
                own@,
                self_priced,
                mint,
            ),
        forall|g: int, h: int|
            0 <= g < h < out@.len() ==> (#[trigger] out@[g]).mint != (#[trigger] out@[h]).mint,
        forall|g: int|
            0 <= g < out@.len() ==> is_group(
                market.banks.listing(),
                market@.prices,
                own@,
                self_priced,
                #[trigger] out@[g],
            ),
{
    let banks = market.banks.listing();
    let n = banks.len() as int;
    let p = reads(banks, market@.prices, own@, self_priced, mint);
    let f = reading_at(banks, market@.prices, own@, self_priced);
    assert(has_group(out@, mint) <==> readings(banks, market@.prices, own@, self_priced, mint).len()
        > 0);
    if readings(banks, market@.prices, own@, self_priced, mint).len() > 0 {
        lemma_gathered(p, f, n, 0);
        let i = choose|i: int| 0 <= i < n && #[trigger] p(i);
        lemma_reads(banks, market@.prices, own@, self_priced, mint, i);
        assert(quotes_mint(banks[i], market@.prices, own@, self_priced, mint));
    }
    if exists|i: int|
        0 <= i < n && quotes_mint(
            #[trigger] banks[i],
            market@.prices,
            own@,
            self_priced,
            mint,
        ) {
        let i = choose|i: int|
            0 <= i < n && quotes_mint(
                #[trigger] banks[i],
                market@.prices,
                own@,
                self_priced,
                mint,
            );
        lemma_reads(banks, market@.prices, own@, self_priced, mint, i);
        law_gather_is_complete(p, f, n, i);
    }
    assert forall|g: int, h: int| 0 <= g < h < out@.len() implies (#[trigger] out@[g]).mint != (
    #[trigger] out@[h]).mint by {
        assert(out@[g].mint.below(out@[h].mint));
    }
}

/// The report of disagreements holds the eight with the widest spread, or all
/// where there are fewer, the widest first, each with what was found of it; one
/// that is left out has no wider spread than any that is reported.
pub proof fn law_widest_spreads_are_reported(
    found: Vec<(Disagreement, Double)>,
    out: Vec<DivergenceRow>,
)
    requires
        call_ensures(widest, (&found,), out),
    ensures
        out@.len() == (if found@.len() < 8 {
            found@.len()
        } else {
            8
        }),
        forall|k: int| 0 <= k < out@.len() ==> is_found(found@, #[trigger] out@[k]),
        forall|j: int, k: int|
            0 <= j < k < out@.len() ==> !(#[trigger] out@[j]).spread_pct.lt(
                (#[trigger] out@[k]).spread_pct,
            ),
        forall|i: int, k: int|
            0 <= i < found@.len() && 0 <= k < out@.len() && !(exists|r: int|
                0 <= r < out@.len() && (#[trigger] out@[r]).mint == found@[i].0.mint)
                ==> !(#[trigger] out@[k]).spread_pct.lt((#[trigger] found@[i]).1),
{
    let items = found@.map_values(divergence_row());
    law_top_items(items, spread_rank(), 8, out@);
    assert forall|k: int| 0 <= k < out@.len() implies is_found(found@, #[trigger] out@[k]) by {
        assert(items.contains(out@[k]));
        let i = choose|i: int| 0 <= i < items.len() && items[i] == out@[k];
        assert(items[i] == (divergence_row())(found@[i]));
        assert(found@[i].0.mint == out@[k].mint);
    }
    assert forall|j: int, k: int| 0 <= j < k < out@.len() implies !(
    #[trigger] out@[j]).spread_pct.lt((#[trigger] out@[k]).spread_pct) by {
        assert((spread_rank())(out@[j]) >= (spread_rank())(out@[k]));
        law_rank_refines_order(out@[j].spread_pct, out@[k].spread_pct);
    }
    assert forall|i: int, k: int|
        0 <= i < found@.len() && 0 <= k < out@.len() && !(exists|r: int|
            0 <= r < out@.len() && (#[trigger] out@[r]).mint == found@[i].0.mint) implies !(
    #[trigger] out@[k]).spread_pct.lt((#[trigger] found@[i]).1) by {
        let x = (divergence_row())(found@[i]);
        assert(items[i] == x);
        assert(items.contains(x));
        assert(!out@.contains(x));
        assert((spread_rank())(out@[k]) >= (spread_rank())(x));
        law_rank_refines_order(out@[k].spread_pct, found@[i].1);
    }
}

/// Whether `row` shows a disagreement that was found.
pub open spec fn is_found(found: Seq<(Disagreement, Double)>, row: DivergenceRow) -> bool {
    exists|i: int|
        0 <= i < found.len() && (#[trigger] found[i]).0.mint == row.mint && found[i].0.sources
            == row.sources && found[i].0.min_price == row.min_price && found[i].0.max_price
            == row.max_price && found[i].1 == row.spread_pct
}

} // verus!
