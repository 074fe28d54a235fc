//! Putting prices to the holdings of a position.

use crate::double::{law_rank_refines_order, Double};
use crate::keymap::PubkeyMap;
use crate::pubkey::Pubkey;
use crate::types::{BankConfig, Holding, PositionModel, PricedAsset, RawPosition};
use vstd::prelude::*;

verus! {

/// The banks of a protocol, and a dollar price for each oracle that gave one.
pub struct Market {
    pub banks: PubkeyMap<BankConfig>,
    pub prices: PubkeyMap<Double>,
}

/// What a market says, apart from how it is stored.
#[verifier::ext_equal]
pub struct MarketModel {
    pub banks: Map<Pubkey, BankConfig>,
    pub prices: Map<Pubkey, Double>,
}

impl View for Market {
    type V = MarketModel;

    open spec fn view(&self) -> MarketModel {
        MarketModel { banks: self.banks@, prices: self.prices@ }
    }
}

/// Whether the bank is known and its oracle gave a price.
pub open spec fn has_price(m: MarketModel, bank: Pubkey) -> bool {
    m.banks.contains_key(bank) && m.prices.contains_key(m.banks[bank].oracle)
}

/// Whether every holding has a price.
pub open spec fn all_priced(m: MarketModel, entries: Seq<Holding>) -> bool {
    forall|i: int| 0 <= i < entries.len() ==> has_price(m, (#[trigger] entries[i]).0)
}

/// A holding with its price: collateral goes by the bank's asset figures,
/// debt by its liability figures.
pub open spec fn priced_asset(m: MarketModel, h: Holding, is_collateral: bool) -> PricedAsset {
    let bank = m.banks[h.0];
    PricedAsset {
        mint: bank.mint,
        shares: h.1,
        share_value: if is_collateral {
            bank.asset_share_value
        } else {
            bank.liab_share_value
        },
        decimals: bank.decimals,
        price: m.prices[bank.oracle],
        weight: if is_collateral {
            bank.asset_weight_maint
        } else {
            bank.liab_weight_maint
        },
    }
}

/// All holdings with their prices.
pub open spec fn priced_assets(
    m: MarketModel,
    entries: Seq<Holding>,
    is_collateral: bool,
) -> Seq<PricedAsset> {
    Seq::new(entries.len(), |i: int| priced_asset(m, entries[i], is_collateral))
}

/// Whether some holding on either side has no price.
pub open spec fn is_incomplete(m: MarketModel, p: PositionModel) -> bool {
    !all_priced(m, p.deposits) || !all_priced(m, p.borrows)
}

/// Whether the position can be assessed: every holding has a price, and there
/// are holdings on both sides.
pub open spec fn is_assessable(m: MarketModel, p: PositionModel) -> bool {
    !is_incomplete(m, p) && p.deposits.len() > 0 && p.borrows.len() > 0
}

/// A position with its prices.
pub enum Pricing {
    /// Some holding has no price.
    Incomplete,
    /// All holdings have a price, but there is none on one of the sides.
    OneSided,
    Priced { collateral: Vec<PricedAsset>, liability: Vec<PricedAsset> },
}

fn price_holding(market: &Market, holding: &Holding, is_collateral: bool) -> (out: Option<
    PricedAsset,
>)
    ensures
        out == if has_price(market@, holding.0) {
            Some(priced_asset(market@, *holding, is_collateral))
        } else {
            None
        },
{
    let bank: &BankConfig = match market.banks.get(&holding.0) {
        Some(bank) => bank,
        None => return None,
    };
    let price: Double = match market.prices.get(&bank.oracle) {
        Some(price) => *price,
        None => return None,
    };
    Some(
        PricedAsset {
            mint: bank.mint,
            shares: holding.1,
            share_value: if is_collateral {
                bank.asset_share_value
            } else {
                bank.liab_share_value
            },
            decimals: bank.decimals,
            price,
            weight: if is_collateral {
                bank.asset_weight_maint
            } else {
                bank.liab_weight_maint
            },
        },
    )
}

/// Prices one side of a position; nothing if any holding has no price.
pub fn price_side(market: &Market, entries: &Vec<Holding>, is_collateral: bool) -> (out: Option<
    Vec<PricedAsset>,
>)
    ensures
        match out {
            Some(assets) => all_priced(market@, entries@) && assets@ == priced_assets(
                market@,
                entries@,
                is_collateral,
            ),
            None => !all_priced(market@, entries@),
        },
{
    let mut out: Vec<PricedAsset> = Vec::with_capacity(entries.len());
    let mut i: usize = 0;
    while i < entries.len()
        invariant
            i <= entries@.len(),
            out@.len() == i,
            forall|j: int| 0 <= j < i ==> has_price(market@, (#[trigger] entries@[j]).0),
            forall|j: int|
                0 <= j < i ==> #[trigger] out@[j] == priced_asset(
                    market@,
                    entries@[j],
                    is_collateral,
                ),
        decreases entries@.len() - i,
    {
        match price_holding(market, &entries[i], is_collateral) {
            Some(asset) => out.push(asset),
            None => {
                assert(!has_price(market@, entries@[i as int].0));
                return None;
            },
        }
        i = i + 1;
    }
    assert(out@ =~= priced_assets(market@, entries@, is_collateral));
    Some(out)
}

/// Prices both sides of a position.
pub fn price_position(market: &Market, position: &RawPosition) -> (out: Pricing)
    ensures
        out is Incomplete <==> is_incomplete(market@, position@),
        out is Priced <==> is_assessable(market@, position@),
        out matches Pricing::Priced { collateral, liability } ==> {
            &&& collateral@ == priced_assets(market@, position@.deposits, true)
            &&& liability@ == priced_assets(market@, position@.borrows, false)
        },
{
    let collateral: Vec<PricedAsset> = match price_side(market, &position.deposits, true) {
        Some(assets) => assets,
        None => return Pricing::Incomplete,
    };
    let liability: Vec<PricedAsset> = match price_side(market, &position.borrows, false) {
        Some(assets) => assets,
        None => return Pricing::Incomplete,
    };
    if collateral.len() == 0 || liability.len() == 0 {
        return Pricing::OneSided;
    }
    Pricing::Priced { collateral, liability }
}

/// Whether the holding at `k` has a price and is worth the most of those that
/// have one, the last of several that are worth the same.
pub open spec fn is_largest(
    m: MarketModel,
    entries: Seq<Holding>,
    values: Seq<Double>,
    k: int,
) -> bool {
    &&& 0 <= k < entries.len()
    &&& has_price(m, entries[k].0)
    &&& forall|j: int|
        0 <= j < entries.len() && has_price(m, (#[trigger] entries[j]).0) && j != k ==> {
            if j < k {
                values[j].spec_rank() <= values[k].spec_rank()
            } else {
                values[j].spec_rank() < values[k].spec_rank()
            }
        }
}

/// The bank of the largest holding that has a price.
pub open spec fn largest_of(
    m: MarketModel,
    entries: Seq<Holding>,
    values: Seq<Double>,
) -> Option<Pubkey> {
    if exists|k: int| is_largest(m, entries, values, k) {
        Some(entries[choose|k: int| is_largest(m, entries, values, k)].0)
    } else {
        None
    }
}

/// Only one holding is the largest, and there is one as soon as any holding
/// has a price.
pub proof fn law_one_largest(m: MarketModel, entries: Seq<Holding>, values: Seq<Double>)
    ensures
        forall|j: int, k: int|
            is_largest(m, entries, values, j) && is_largest(m, entries, values, k) ==> j == k,
        largest_of(m, entries, values) is Some <==> exists|i: int|
            0 <= i < entries.len() && has_price(m, (#[trigger] entries[i]).0),
{
    assert forall|j: int, k: int|
        is_largest(m, entries, values, j) && is_largest(m, entries, values, k) implies j == k by {
        assert(has_price(m, entries[j].0));
        assert(has_price(m, entries[k].0));
    }
    if exists|i: int| 0 <= i < entries.len() && has_price(m, (#[trigger] entries[i]).0) {
        let i = choose|i: int| 0 <= i < entries.len() && has_price(m, (#[trigger] entries[i]).0);
        lemma_largest_exists(m, entries, values, entries.len() as int, i);
    }
    if largest_of(m, entries, values) is Some {
        let k = choose|k: int| is_largest(m, entries, values, k);
        assert(has_price(m, entries[k].0));
    }
}

proof fn lemma_largest_exists(
    m: MarketModel,
    entries: Seq<Holding>,
    values: Seq<Double>,
    n: int,
    i: int,
)
    requires
        0 <= i < n <= entries.len(),
        has_price(m, entries[i].0),
    ensures
        exists|k: int| is_largest(m, entries.take(n), values, k),
        entries.take(entries.len() as int) == entries,
    decreases n,
{
    assert(entries.take(entries.len() as int) =~= entries);
    let shorter = entries.take(n - 1);
    let all = entries.take(n);
    if exists|j: int| 0 <= j < n - 1 && has_price(m, (#[trigger] entries[j]).0) {
        let j = choose|j: int| 0 <= j < n - 1 && has_price(m, (#[trigger] entries[j]).0);
        lemma_largest_exists(m, entries, values, n - 1, j);
        let k = choose|k: int| is_largest(m, shorter, values, k);
        if has_price(m, entries[n - 1].0) && values[k].spec_rank() <= values[n
            - 1].spec_rank() {
            assert forall|q: int|
                0 <= q < n - 1 && has_price(m, (#[trigger] all[q]).0) implies values[q].spec_rank()
                <= values[n - 1].spec_rank() by {
                assert(shorter[q] == all[q]);
            }
            assert(is_largest(m, all, values, n - 1));
        } else {
            assert forall|q: int|
                0 <= q < n && has_price(m, (#[trigger] all[q]).0) && q != k implies {
                if q < k {
                    values[q].spec_rank() <= values[k].spec_rank()
                } else {
                    values[q].spec_rank() < values[k].spec_rank()
                }
            } by {
                if q < n - 1 {
                    assert(shorter[q] == all[q]);
                }
            }
            assert(all[k] == shorter[k]);
            assert(is_largest(m, all, values, k));
        }
    } else {
        assert(i == n - 1);
        assert forall|q: int| 0 <= q < n && has_price(m, (#[trigger] all[q]).0) implies q == i by {
            assert(all[q] == entries[q]);
        }
        assert(all[i] == entries[i]);
        assert(is_largest(m, all, values, i));
    }
}

/// The bank of the holding that is worth the most, by the given values.
pub fn largest_bank(market: &Market, entries: &Vec<Holding>, values: &Vec<Double>) -> (out: Option<
    Pubkey,
>)
    requires
        values@.len() == entries@.len(),
    ensures
        out == largest_of(market@, entries@, values@),
{
    let mut best: Option<usize> = None;
    let mut i: usize = 0;
    while i < entries.len()
        invariant
            i <= entries@.len(),
            values@.len() == entries@.len(),
            match best {
                Some(k) => k < i && is_largest(market@, entries@.take(i as int), values@, k as int),
                None => forall|j: int|
                    0 <= j < i ==> !has_price(market@, (#[trigger] entries@[j]).0),
            },
        decreases entries@.len() - i,
    {
        let ghost before = entries@.take(i as int);
        let ghost after = entries@.take(i + 1);
        proof {
            assert(forall|j: int| 0 <= j < i ==> #[trigger] after[j] == before[j]);
            assert(forall|j: int| 0 <= j < i ==> #[trigger] before[j] == after[j]);
            assert(after[i as int] == entries@[i as int]);
            assert(forall|j: int| 0 <= j <= i ==> #[trigger] after[j] == entries@[j]);
        }
        let priced: bool = price_holding(market, &entries[i], true).is_some();
        if priced {
            let better: bool = match best {
                Some(k) => values[k].rank() <= values[i].rank(),
                None => true,
            };
            if better {
                best = Some(i);
            }
        }
        i = i + 1;
    }
    proof {
        assert(entries@.take(entries@.len() as int) =~= entries@);
        law_one_largest(market@, entries@, values@);
    }
    match best {
        Some(k) => Some(entries[k].0),
        None => None,
    }
}

/// Whatever a position is priced as says what the market says of its banks. It
/// is incomplete exactly when a bank is not known or its oracle gave no price;
/// otherwise it is priced exactly when it has holdings on both sides, each with
/// the mint, the decimals and the oracle's price of its bank, deposits by the
/// asset share value and weight, borrows by the liability ones.
pub proof fn law_pricing_says_what_the_market_says(
    market: Market,
    position: RawPosition,
    out: Pricing,
)
    requires
        call_ensures(price_position, (&market, &position), out),
    ensures
        ({
            let banks = market@.banks;
            let prices = market@.prices;
            let priced = |h: Holding|
                banks.contains_key(h.0) && prices.contains_key(banks[h.0].oracle);
            let complete = (forall|j: int|
                0 <= j < position.deposits@.len() ==> priced(#[trigger] position.deposits@[j])) && (
            forall|j: int|
                0 <= j < position.borrows@.len() ==> priced(#[trigger] position.borrows@[j]));
            &&& out is Incomplete <==> !complete
            &&& out is OneSided <==> complete && (position.deposits@.len() == 0
                || position.borrows@.len() == 0)
            &&& out matches Pricing::Priced { collateral, liability } ==> {
                &&& collateral@.len() == position.deposits@.len()
                &&& liability@.len() == position.borrows@.len()
                &&& forall|j: int|
                    0 <= j < collateral@.len() ==> {
                        let h = position.deposits@[j];
                        let bank = banks[h.0];
                        #[trigger] collateral@[j] == PricedAsset {
                            mint: bank.mint,
                            shares: h.1,
                            share_value: bank.asset_share_value,
                            decimals: bank.decimals,
                            price: prices[bank.oracle],
                            weight: bank.asset_weight_maint,
                        }
                    }
                &&& forall|j: int|
                    0 <= j < liability@.len() ==> {
                        let h = position.borrows@[j];
                        let bank = banks[h.0];
                        #[trigger] liability@[j] == PricedAsset {
                            mint: bank.mint,
                            shares: h.1,
                            share_value: bank.liab_share_value,
                            decimals: bank.decimals,
                            price: prices[bank.oracle],
                            weight: bank.liab_weight_maint,
                        }
                    }
            }
        }),
{
    let banks = market@.banks;
    let prices = market@.prices;
    let priced = |h: Holding| banks.contains_key(h.0) && prices.contains_key(banks[h.0].oracle);
    lemma_all_priced(market@, position.deposits@);
    lemma_all_priced(market@, position.borrows@);
    assert(forall|h: Holding| #[trigger] priced(h) == has_price(market@, h.0));
}

proof fn lemma_all_priced(m: MarketModel, entries: Seq<Holding>)
    ensures
        all_priced(m, entries) <==> forall|j: int|
            0 <= j < entries.len() ==> {
                let h = #[trigger] entries[j];
                m.banks.contains_key(h.0) && m.prices.contains_key(m.banks[h.0].oracle)
            },
{
    if all_priced(m, entries) {
        assert forall|j: int| 0 <= j < entries.len() implies {
            let h = #[trigger] entries[j];
            m.banks.contains_key(h.0) && m.prices.contains_key(m.banks[h.0].oracle)
        } by {
            assert(has_price(m, entries[j].0));
        }
    }
}

/// The bank that is picked is that of a holding with a price that no other
/// holding with a price is worth more than; of several that are worth the same
/// it is the last. There is one as soon as any holding has a price.
pub proof fn law_largest_holding_is_picked(
    m: MarketModel,
    entries: Seq<Holding>,
    values: Seq<Double>,
)
    ensures
        ({
            let priced = |j: int|
                m.banks.contains_key(entries[j].0) && m.prices.contains_key(
                    m.banks[entries[j].0].oracle,
                );
            &&& largest_of(m, entries, values) is None <==> forall|j: int|
                0 <= j < entries.len() ==> !#[trigger] priced(j)
            &&& largest_of(m, entries, values) matches Some(bank) ==> exists|k: int|
                0 <= k < entries.len() && #[trigger] priced(k) && entries[k].0 == bank && (forall|
                    j: int,
                |
                    0 <= j < entries.len() && #[trigger] priced(j) && j != k ==> !values[k].lt(
                        values[j],
                    ) && (j > k ==> values[j] != values[k]))
        }),
{
    let priced = |j: int|
        m.banks.contains_key(entries[j].0) && m.prices.contains_key(m.banks[entries[j].0].oracle);
    assert forall|j: int| 0 <= j < entries.len() implies #[trigger] priced(j) == has_price(
        m,
        entries[j].0,
    ) by {}
    law_one_largest(m, entries, values);
    if largest_of(m, entries, values) is Some {
        let k = choose|k: int| is_largest(m, entries, values, k);
        assert(priced(k));
        assert forall|j: int|
            0 <= j < entries.len() && #[trigger] priced(j) && j != k implies !values[k].lt(
            values[j],
        ) && (j > k ==> values[j] != values[k]) by {
            assert(has_price(m, entries[j].0));
            law_rank_refines_order(values[k], values[j]);
        }
    } else {
        assert forall|j: int| 0 <= j < entries.len() implies !#[trigger] priced(j) by {
            if has_price(m, entries[j].0) {
                assert(entries[j] == entries[j]);
            }
        }
    }
}

} // verus!
