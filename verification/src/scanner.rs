//! One scan pass: which positions are at risk, which are large, and which can
//! be liquidated.
//!
//! Dollar values come in as doubles, computed from the priced holdings of each
//! position; what is counted, listed, ranked and reported is decided here.

use crate::anchor::{discriminator, sha256};
use crate::bytes::LayoutError;
use crate::config::Config;
use crate::double::{
    law_order_is_numeric, law_rank_refines_order, lemma_units, Double, ONE, ZERO,
};
use crate::health::{assess, health_of, HealthReport};
use crate::keymap::PubkeyMap;
use crate::liquidator::Liquidator;
use crate::oracle::{is_coverage, Fetched, OracleClient, PriceCoverage};
use crate::pricing::{
    all_priced, has_price, is_assessable, is_incomplete, is_largest, largest_bank, largest_of,
    law_one_largest, price_position, Market, MarketModel, Pricing,
};
use crate::protocol::{
    is_bank_load, is_position_load, law_positions_come_from_accounts, law_positions_owe, load_banks,
    load_positions, positions_from, BankBook, BankLoad, ImplStatus, LendingProtocol, PositionLoad,
    Protocol, RawAccount,
};
use crate::pubkey::{zero_key, Pubkey};
use crate::ranking::{
    by_key, is_sorted_desc, is_top, law_sorted_items, law_sorting_is_unique, law_top_is_unique,
    law_top_items, sort_desc, take_top, Ranked,
};
use crate::tally::{
    count, gather, indices, law_count_of_items, law_gather_filters, law_gather_is_complete,
    lemma_count_fits, lemma_count_implies, lemma_gather_len, lemma_gathered,
};
use crate::text::same;
use crate::types::{
    models, BankConfig, ChainState, DivergenceRow, Holding, PositionModel, RawPosition, RiskBuckets,
    WhaleRow,
};
use vstd::arithmetic::power2::{
    lemma2_to64, lemma2_to64_rest, lemma_pow2_adds, lemma_pow2_pos, pow2,
};
use vstd::prelude::*;
use vstd::utf8::encode_utf8;

verus! {

/// 1.10
pub const WATCH_BELOW: u64 = 0x3ff1_9999_9999_999a;
/// 1.05
pub const AT_RISK_BELOW: u64 = 0x3ff0_cccc_cccc_cccd;
/// 1.02
pub const EDGE_BELOW: u64 = 0x3ff0_51eb_851e_b852;
/// 1000000.0
pub const MAX_PLAUSIBLE_USD: u64 = 0x412e_8480_0000_0000;
/// 100.0
pub const MAX_PLAUSIBLE_RATIO: u64 = 0x4059_0000_0000_0000;
/// 10000.0
pub const WHALE_FROM_USD: u64 = 0x40c3_8800_0000_0000;

/// How many whales a scan reports.
pub const WHALES_KEPT: usize = 6;

/// The dollar values of one position.
#[derive(Clone, Copy, PartialEq, Eq, Structural, Debug)]
pub struct Figures {
    /// Sum of collateral value after applying each asset's weight.
    pub weighted_collateral: Double,
    /// Sum of liability value after applying each asset's weight.
    pub weighted_liability: Double,
    /// `weighted_collateral / weighted_liability`
    pub quotient: Double,
    /// `weighted_liability / max(weighted_collateral, 1)`
    pub ratio: Double,
    /// What a liquidator earns on repaying the debt.
    pub bonus: Double,
    /// What the liquidation costs.
    pub cost: Double,
    /// `bonus - cost`
    pub profit: Double,
}

/// The dollar values of one position, and of each holding in it.
pub struct Appraisal {
    pub figures: Figures,
    /// The value of each deposit, in the order of the deposits.
    pub deposit_values: Vec<Double>,
    /// The value of each borrow, in the order of the borrows.
    pub borrow_values: Vec<Double>,
}

/// What an appraisal says, apart from how it is stored.
#[verifier::ext_equal]
pub struct AppraisalModel {
    pub figures: Figures,
    pub deposit_values: Seq<Double>,
    pub borrow_values: Seq<Double>,
}

impl View for Appraisal {
    type V = AppraisalModel;

    open spec fn view(&self) -> AppraisalModel {
        AppraisalModel {
            figures: self.figures,
            deposit_values: self.deposit_values@,
            borrow_values: self.borrow_values@,
        }
    }
}

/// A position that can be liquidated, with the accounts that takes.
#[derive(Debug)]
pub struct Opportunity {
    pub position: Pubkey,
    pub owner: Pubkey,
    pub report: HealthReport,
    pub marginfi_group: Pubkey,
    pub asset_bank: Pubkey,
    pub asset_bank_oracle: Pubkey,
    pub asset_bank_liquidity_vault: Pubkey,
    pub liab_bank: Pubkey,
    pub liab_bank_oracle: Pubkey,
    pub liab_bank_liquidity_vault: Pubkey,
    pub insurance_vault: Pubkey,
    pub liquidator_marginfi_account: Pubkey,
    pub liquidate_asset_amount: u64,
    pub liquidatee_remaining_accounts: Vec<(Pubkey, Pubkey)>,
}

/// What an opportunity says, apart from how it is stored.
#[verifier::ext_equal]
pub struct OpportunityModel {
    pub position: Pubkey,
    pub owner: Pubkey,
    pub report: HealthReport,
    pub marginfi_group: Pubkey,
    pub asset_bank: Pubkey,
    pub asset_bank_oracle: Pubkey,
    pub asset_bank_liquidity_vault: Pubkey,
    pub liab_bank: Pubkey,
    pub liab_bank_oracle: Pubkey,
    pub liab_bank_liquidity_vault: Pubkey,
    pub insurance_vault: Pubkey,
    pub liquidator_marginfi_account: Pubkey,
    pub liquidate_asset_amount: u64,
    pub liquidatee_remaining_accounts: Seq<(Pubkey, Pubkey)>,
}

impl View for Opportunity {
    type V = OpportunityModel;

    open spec fn view(&self) -> OpportunityModel {
        OpportunityModel {
            position: self.position,
            owner: self.owner,
            report: self.report,
            marginfi_group: self.marginfi_group,
            asset_bank: self.asset_bank,
            asset_bank_oracle: self.asset_bank_oracle,
            asset_bank_liquidity_vault: self.asset_bank_liquidity_vault,
            liab_bank: self.liab_bank,
            liab_bank_oracle: self.liab_bank_oracle,
            liab_bank_liquidity_vault: self.liab_bank_liquidity_vault,
            insurance_vault: self.insurance_vault,
            liquidator_marginfi_account: self.liquidator_marginfi_account,
            liquidate_asset_amount: self.liquidate_asset_amount,
            liquidatee_remaining_accounts: self.liquidatee_remaining_accounts@,
        }
    }
}

/// A liquidatable position as the dashboard shows it.
#[derive(Clone, Copy, PartialEq, Eq, Structural, Debug)]
pub struct OppRow {
    pub position: Pubkey,
    pub owner: Pubkey,
    pub health_factor: Double,
    pub collateral_usd: Double,
    pub debt_usd: Double,
    pub debt_repaid_usd: Double,
    pub bonus_usd: Double,
    pub cost_usd: Double,
    pub est_profit_usd: Double,
}

/// The holdings of both sides, deposits first.
pub open spec fn both_sides(p: PositionModel) -> Seq<Holding> {
    p.deposits + p.borrows
}

/// Whether no earlier holding is of the same bank.
pub open spec fn is_first(all: Seq<Holding>, i: int) -> bool {
    forall|j: int| 0 <= j < i ==> (#[trigger] all[j]).0 != all[i].0
}

/// Whether the holding at `i` is the first of its bank, and the bank is known.
pub open spec fn is_remaining(
    all: Seq<Holding>,
    banks: Map<Pubkey, BankConfig>,
) -> spec_fn(int) -> bool {
    |i: int| is_first(all, i) && banks.contains_key(all[i].0)
}

/// The bank of the holding at `i`, and its oracle.
pub open spec fn bank_and_oracle(
    all: Seq<Holding>,
    banks: Map<Pubkey, BankConfig>,
) -> spec_fn(int) -> (Pubkey, Pubkey) {
    |i: int| (all[i].0, banks[all[i].0].oracle)
}

/// The known banks of the holdings, each once and with its oracle.
pub open spec fn remaining_of(all: Seq<Holding>, banks: Map<Pubkey, BankConfig>) -> Seq<
    (Pubkey, Pubkey),
> {
    gather(is_remaining(all, banks), bank_and_oracle(all, banks), all.len() as int)
}

/// The bank at an address, where it is known.
pub open spec fn bank_at(banks: Map<Pubkey, BankConfig>, k: Pubkey) -> Option<BankConfig> {
    if banks.contains_key(k) {
        Some(banks[k])
    } else {
        None
    }
}

/// A key, or the zero key where there is none.
pub open spec fn key_or_zero(k: Option<Pubkey>) -> Pubkey {
    match k {
        Some(k) => k,
        None => zero_key(),
    }
}

/// The opportunity to liquidate `p`, seizing from the asset bank and repaying
/// the liability bank. Keys of a bank that is not known are zero, as are the
/// liquidator's own account and the amount, which are not chosen here.
pub open spec fn opportunity_of(
    p: PositionModel,
    report: HealthReport,
    banks: Map<Pubkey, BankConfig>,
    asset_bank: Option<Pubkey>,
    liab_bank: Option<Pubkey>,
) -> OpportunityModel {
    let asset = key_or_zero(asset_bank);
    let liab = key_or_zero(liab_bank);
    let ab = bank_at(banks, asset);
    let lb = bank_at(banks, liab);
    OpportunityModel {
        position: p.address,
        owner: p.owner,
        report,
        marginfi_group: match (lb, ab) {
            (Some(b), _) => b.group,
            (None, Some(b)) => b.group,
            (None, None) => zero_key(),
        },
        asset_bank: asset,
        asset_bank_oracle: match ab {
            Some(b) => b.oracle,
            None => zero_key(),
        },
        asset_bank_liquidity_vault: match ab {
            Some(b) => b.liquidity_vault,
            None => zero_key(),
        },
        liab_bank: liab,
        liab_bank_oracle: match lb {
            Some(b) => b.oracle,
            None => zero_key(),
        },
        liab_bank_liquidity_vault: match lb {
            Some(b) => b.liquidity_vault,
            None => zero_key(),
        },
        insurance_vault: match lb {
            Some(b) => b.insurance_vault,
            None => zero_key(),
        },
        liquidator_marginfi_account: zero_key(),
        liquidate_asset_amount: 0,
        liquidatee_remaining_accounts: remaining_of(both_sides(p), banks),
    }
}

fn seen_before(keys: &Vec<Pubkey>, at: usize) -> (out: bool)
    requires
        at < keys@.len(),
    ensures
        out == exists|j: int| 0 <= j < at && #[trigger] keys@[j] == keys@[at as int],
{
    let mut j: usize = 0;
    while j < at
        invariant
            j <= at < keys@.len(),
            forall|q: int| 0 <= q < j ==> #[trigger] keys@[q] != keys@[at as int],
        decreases at - j,
    {
        if keys[j] == keys[at] {
            return true;
        }
        j = j + 1;
    }
    false
}

fn bank_keys(position: &RawPosition) -> (out: Vec<Pubkey>)
    ensures
        out@.len() == both_sides(position@).len(),
        forall|i: int| 0 <= i < out@.len() ==> #[trigger] out@[i] == both_sides(position@)[i].0,
{
    let mut keys: Vec<Pubkey> = Vec::new();
    let mut i: usize = 0;
    while i < position.deposits.len()
        invariant
            i <= position.deposits@.len(),
            keys@.len() == i,
            forall|j: int| 0 <= j < i ==> #[trigger] keys@[j] == position.deposits@[j].0,
        decreases position.deposits@.len() - i,
    {
        keys.push(position.deposits[i].0);
        i = i + 1;
    }
    let mut k: usize = 0;
    while k < position.borrows.len()
        invariant
            k <= position.borrows@.len(),
            keys@.len() == position.deposits@.len() + k,
            forall|j: int|
                0 <= j < keys@.len() ==> #[trigger] keys@[j] == both_sides(position@)[j].0,
        decreases position.borrows@.len() - k,
    {
        keys.push(position.borrows[k].0);
        k = k + 1;
    }
    keys
}

/// Collects the accounts that a liquidation of the position takes.
pub fn build_opportunity(
    position: &RawPosition,
    report: HealthReport,
    market: &Market,
    asset_bank: Option<Pubkey>,
    liab_bank: Option<Pubkey>,
) -> (out: Opportunity)
    ensures
        out@ == opportunity_of(position@, report, market@.banks, asset_bank, liab_bank),
{
    let zero: Pubkey = Pubkey::default();
    let asset: Pubkey = match asset_bank {
        Some(k) => k,
        None => zero,
    };
    let liab: Pubkey = match liab_bank {
        Some(k) => k,
        None => zero,
    };
    let ab: Option<&BankConfig> = market.banks.get(&asset);
    let lb: Option<&BankConfig> = market.banks.get(&liab);

    let ghost all = both_sides(position@);
    let ghost keep = is_remaining(all, market@.banks);
    let ghost make = bank_and_oracle(all, market@.banks);
    let keys: Vec<Pubkey> = bank_keys(position);
    let mut remaining: Vec<(Pubkey, Pubkey)> = Vec::new();
    let mut i: usize = 0;
    while i < keys.len()
        invariant
            i <= keys@.len(),
            keys@.len() == all.len(),
            forall|j: int| 0 <= j < keys@.len() ==> #[trigger] keys@[j] == all[j].0,
            keep == is_remaining(all, market@.banks),
            make == bank_and_oracle(all, market@.banks),
            remaining@ == gather(keep, make, i as int),
        decreases keys@.len() - i,
    {
        let seen: bool = seen_before(&keys, i);
        proof {
            if seen {
                let j = choose|j: int| 0 <= j < i && #[trigger] keys@[j] == keys@[i as int];
                assert(all[j].0 == all[i as int].0);
            } else {
                assert forall|j: int| 0 <= j < i implies (#[trigger] all[j]).0
                    != all[i as int].0 by {
                    assert(keys@[j] != keys@[i as int]);
                }
            }
            assert(is_first(all, i as int) == !seen);
        }
        if !seen {
            if let Some(bank) = market.banks.get(&keys[i]) {
                remaining.push((keys[i], bank.oracle));
            }
        }
        i = i + 1;
    }

    Opportunity {
        position: position.address,
        owner: position.owner,
        report,
        marginfi_group: match (lb, ab) {
            (Some(b), _) => b.group,
            (None, Some(b)) => b.group,
            (None, None) => zero,
        },
        asset_bank: asset,
        asset_bank_oracle: match ab {
            Some(b) => b.oracle,
            None => zero,
        },
        asset_bank_liquidity_vault: match ab {
            Some(b) => b.liquidity_vault,
            None => zero,
        },
        liab_bank: liab,
        liab_bank_oracle: match lb {
            Some(b) => b.oracle,
            None => zero,
        },
        liab_bank_liquidity_vault: match lb {
            Some(b) => b.liquidity_vault,
            None => zero,
        },
        insurance_vault: match lb {
            Some(b) => b.insurance_vault,
            None => zero,
        },
        liquidator_marginfi_account: zero,
        liquidate_asset_amount: 0,
        liquidatee_remaining_accounts: remaining,
    }
}

/// Whether the figures make sense; a position whose figures do not is noise.
pub open spec fn is_plausible(f: Figures) -> bool {
    &&& Double::of(ONE).le(f.weighted_collateral)
    &&& Double::of(ONE).le(f.weighted_liability)
    &&& f.weighted_liability.le(Double::of(MAX_PLAUSIBLE_USD))
    &&& f.weighted_collateral.le(Double::of(MAX_PLAUSIBLE_USD))
    &&& f.ratio.le(Double::of(MAX_PLAUSIBLE_RATIO))
}

pub fn plausible(f: &Figures) -> (out: bool)
    ensures
        out == is_plausible(*f),
{
    let one: Double = Double::from_bits(ONE);
    let most: Double = Double::from_bits(MAX_PLAUSIBLE_USD);
    one.at_most(f.weighted_collateral) && one.at_most(f.weighted_liability)
        && f.weighted_liability.at_most(most) && f.weighted_collateral.at_most(most)
        && f.ratio.at_most(Double::from_bits(MAX_PLAUSIBLE_RATIO))
}

/// What the figures say of the position's health.
pub open spec fn report_of(f: Figures) -> HealthReport {
    health_of(f.weighted_collateral, f.weighted_liability, f.quotient)
}

/// Everything that one pass looks at.
pub struct Pass {
    pub market: MarketModel,
    pub positions: Seq<PositionModel>,
    pub appraisals: Seq<AppraisalModel>,
    pub min_debt: Double,
}

impl Pass {
    /// What the figures say of the position at `i`.
    pub open spec fn report(self, i: int) -> HealthReport {
        report_of(self.appraisals[i].figures)
    }

    /// Whether some holding of the position has no price.
    pub open spec fn incomplete(self) -> spec_fn(int) -> bool {
        |i: int| is_incomplete(self.market, self.positions[i])
    }

    /// Whether every holding of the position has a price.
    pub open spec fn priced(self) -> spec_fn(int) -> bool {
        |i: int| !is_incomplete(self.market, self.positions[i])
    }

    /// Whether the position counts towards the thresholds and the lists: it can
    /// be assessed, and its figures make sense.
    pub open spec fn counted(self) -> spec_fn(int) -> bool {
        |i: int|
            is_assessable(self.market, self.positions[i]) && is_plausible(
                self.appraisals[i].figures,
            )
    }

    /// Whether the position counts and its health factor is below `limit`.
    pub open spec fn below(self, limit: u64) -> spec_fn(int) -> bool {
        |i: int|
            (self.counted())(i) && self.report(i).health_factor.lt(Double::of(limit))
    }

    /// Whether the position counts and is large.
    pub open spec fn whale(self) -> spec_fn(int) -> bool {
        |i: int|
            (self.counted())(i) && Double::of(WHALE_FROM_USD).le(
                self.report(i).weighted_liability,
            )
    }

    /// The position as a whale.
    pub open spec fn whale_row(self) -> spec_fn(int) -> WhaleRow {
        |i: int|
            WhaleRow {
                position: self.positions[i].address,
                owner: self.positions[i].owner,
                debt_usd: self.report(i).weighted_liability,
                health_factor: self.report(i).health_factor,
                liquidatable: self.report(i).liquidatable,
            }
    }

    /// Whether the position counts, can be liquidated, and owes enough.
    pub open spec fn listed(self) -> spec_fn(int) -> bool {
        |i: int|
            (self.counted())(i) && self.report(i).liquidatable
                && !self.report(i).weighted_liability.lt(self.min_debt)
    }

    /// The position as a row of the dashboard.
    pub open spec fn row(self) -> spec_fn(int) -> OppRow {
        |i: int|
            OppRow {
                position: self.positions[i].address,
                owner: self.positions[i].owner,
                health_factor: self.report(i).health_factor,
                collateral_usd: self.report(i).weighted_collateral,
                debt_usd: self.report(i).weighted_liability,
                debt_repaid_usd: self.report(i).weighted_liability,
                bonus_usd: self.appraisals[i].figures.bonus,
                cost_usd: self.appraisals[i].figures.cost,
                est_profit_usd: self.appraisals[i].figures.profit,
            }
    }

    /// The position as an opportunity, from its largest deposit and its
    /// largest borrow.
    pub open spec fn opportunity(self) -> spec_fn(int) -> OpportunityModel {
        |i: int|
            opportunity_of(
                self.positions[i],
                self.report(i),
                self.market.banks,
                largest_of(
                    self.market,
                    self.positions[i].deposits,
                    self.appraisals[i].deposit_values,
                ),
                largest_of(
                    self.market,
                    self.positions[i].borrows,
                    self.appraisals[i].borrow_values,
                ),
            )
    }

    /// Whether there is an appraisal for each position, and in that of each
    /// position that can be assessed a value for each holding.
    pub open spec fn is_appraised(self) -> bool {
        &&& self.appraisals.len() == self.positions.len()
        &&& forall|i: int|
            0 <= i < self.positions.len() && is_assessable(
                self.market,
                #[trigger] self.positions[i],
            ) ==> {
                &&& self.appraisals[i].deposit_values.len() == self.positions[i].deposits.len()
                &&& self.appraisals[i].borrow_values.len() == self.positions[i].borrows.len()
            }
    }
}

/// The pass over the given positions.
pub open spec fn pass_of(
    market: MarketModel,
    positions: Seq<RawPosition>,
    appraisals: Seq<Appraisal>,
    min_debt: Double,
) -> Pass {
    Pass {
        market,
        positions: models(positions),
        appraisals: appraisals.map_values(|a: Appraisal| a@),
        min_debt,
    }
}

/// What a pass found.
pub struct Survey {
    /// In the order of the positions.
    pub opportunities: Vec<Opportunity>,
    /// The same, most profitable first.
    pub rows: Vec<OppRow>,
    /// The largest positions by debt, largest first.
    pub whales: Vec<WhaleRow>,
    pub risk: RiskBuckets,
    /// How many positions could not be priced.
    pub skipped_incomplete: usize,
}

pub open spec fn profit_rank() -> spec_fn(OppRow) -> u64 {
    |r: OppRow| r.est_profit_usd.spec_rank()
}

pub open spec fn debt_rank() -> spec_fn(WhaleRow) -> u64 {
    |w: WhaleRow| w.debt_usd.spec_rank()
}

impl Ranked for OppRow {
    open spec fn rank_key(self) -> u64 {
        self.est_profit_usd.spec_rank()
    }

    fn key(&self) -> u64 {
        self.est_profit_usd.rank()
    }
}

impl Ranked for WhaleRow {
    open spec fn rank_key(self) -> u64 {
        self.debt_usd.spec_rank()
    }

    fn key(&self) -> u64 {
        self.debt_usd.rank()
    }
}

/// Sorts rows by profit, highest first.
pub fn rank_rows(rows: &Vec<OppRow>) -> (out: Vec<OppRow>)
    ensures
        is_sorted_desc(rows@, profit_rank(), out@),
{
    assert(by_key::<OppRow>() =~= profit_rank());
    sort_desc(rows)
}

/// The largest of the whales by debt, largest first.
pub fn top_whales(whales: &Vec<WhaleRow>) -> (out: Vec<WhaleRow>)
    ensures
        is_top(whales@, debt_rank(), WHALES_KEPT as nat, out@),
{
    assert(by_key::<WhaleRow>() =~= debt_rank());
    take_top(whales, WHALES_KEPT)
}

/// Whether `out` is what the pass finds.
pub open spec fn is_survey(out: Survey, pass: Pass) -> bool {
    let n = pass.positions.len() as int;
    &&& out.skipped_incomplete == count(pass.incomplete(), n)
    &&& out.risk.total_priced == count(pass.priced(), n)
    &&& out.risk.watch == count(pass.below(WATCH_BELOW), n)
    &&& out.risk.at_risk == count(pass.below(AT_RISK_BELOW), n)
    &&& out.risk.edge == count(pass.below(EDGE_BELOW), n)
    &&& out.risk.liquidatable == count(pass.below(ONE), n)
    &&& is_top(
        gather(pass.whale(), pass.whale_row(), n),
        debt_rank(),
        WHALES_KEPT as nat,
        out.whales@,
    )
    &&& is_sorted_desc(gather(pass.listed(), pass.row(), n), profit_rank(), out.rows@)
    &&& out.opportunities@.map_values(|o: Opportunity| o@) == gather(
        pass.listed(),
        pass.opportunity(),
        n,
    )
}

/// One pass over the positions.
pub fn survey(
    market: &Market,
    positions: &Vec<RawPosition>,
    appraisals: &Vec<Appraisal>,
    min_debt_usd: Double,
) -> (out: Survey)
    requires
        pass_of(market@, positions@, appraisals@, min_debt_usd).is_appraised(),
    ensures
        is_survey(out, pass_of(market@, positions@, appraisals@, min_debt_usd)),
{
    let ghost pass = pass_of(market@, positions@, appraisals@, min_debt_usd);
    let ghost told = |o: Opportunity| o@;
    let mut opportunities: Vec<Opportunity> = Vec::new();
    let mut rows: Vec<OppRow> = Vec::new();
    let mut whales: Vec<WhaleRow> = Vec::new();
    let mut risk: RiskBuckets = RiskBuckets::default();
    let mut skipped_incomplete: usize = 0;
    assert(opportunities@.map_values(told) =~= Seq::<OpportunityModel>::empty());
    let mut i: usize = 0;
    while i < positions.len()
        invariant
            i <= positions@.len(),
            pass == pass_of(market@, positions@, appraisals@, min_debt_usd),
            pass.is_appraised(),
            told == (|o: Opportunity| o@),
            skipped_incomplete == count(pass.incomplete(), i as int),
            risk.total_priced == count(pass.priced(), i as int),
            risk.watch == count(pass.below(WATCH_BELOW), i as int),
            risk.at_risk == count(pass.below(AT_RISK_BELOW), i as int),
            risk.edge == count(pass.below(EDGE_BELOW), i as int),
            risk.liquidatable == count(pass.below(ONE), i as int),
            whales@ == gather(pass.whale(), pass.whale_row(), i as int),
            rows@ == gather(pass.listed(), pass.row(), i as int),
            opportunities@.map_values(told) == gather(
                pass.listed(),
                pass.opportunity(),
                i as int,
            ),
        decreases positions@.len() - i,
    {
        let position: &RawPosition = &positions[i];
        let appraisal: &Appraisal = &appraisals[i];
        proof {
            assert(pass.positions[i as int] == position@);
            assert(pass.appraisals[i as int] == appraisal@);
            lemma_count_fits(pass.incomplete(), i as int);
            lemma_count_fits(pass.priced(), i as int);
            lemma_count_fits(pass.below(WATCH_BELOW), i as int);
            lemma_count_fits(pass.below(AT_RISK_BELOW), i as int);
            lemma_count_fits(pass.below(EDGE_BELOW), i as int);
            lemma_count_fits(pass.below(ONE), i as int);
        }
        match price_position(market, position) {
            Pricing::Incomplete => {
                skipped_incomplete = skipped_incomplete + 1;
            },
            Pricing::OneSided => {
                risk.total_priced = risk.total_priced + 1;
            },
            Pricing::Priced { .. } => {
                risk.total_priced = risk.total_priced + 1;
                let figures: Figures = appraisal.figures;
                if plausible(&figures) {
                    let report: HealthReport = assess(
                        figures.weighted_collateral,
                        figures.weighted_liability,
                        figures.quotient,
                    );
                    let hf: Double = report.health_factor;
                    if hf.less_than(Double::from_bits(WATCH_BELOW)) {
                        risk.watch = risk.watch + 1;
                    }
                    if hf.less_than(Double::from_bits(AT_RISK_BELOW)) {
                        risk.at_risk = risk.at_risk + 1;
                    }
                    if hf.less_than(Double::from_bits(EDGE_BELOW)) {
                        risk.edge = risk.edge + 1;
                    }
                    if hf.less_than(Double::from_bits(ONE)) {
                        risk.liquidatable = risk.liquidatable + 1;
                    }
                    if Double::from_bits(WHALE_FROM_USD).at_most(report.weighted_liability) {
                        whales.push(
                            WhaleRow {
                                position: position.address,
                                owner: position.owner,
                                debt_usd: report.weighted_liability,
                                health_factor: hf,
                                liquidatable: report.liquidatable,
                            },
                        );
                    }
                    if report.liquidatable && !report.weighted_liability.less_than(min_debt_usd) {
                        let asset_bank: Option<Pubkey> = largest_bank(
                            market,
                            &position.deposits,
                            &appraisal.deposit_values,
                        );
                        let liab_bank: Option<Pubkey> = largest_bank(
                            market,
                            &position.borrows,
                            &appraisal.borrow_values,
                        );
                        rows.push(
                            OppRow {
                                position: position.address,
                                owner: position.owner,
                                health_factor: hf,
                                collateral_usd: report.weighted_collateral,
                                debt_usd: report.weighted_liability,
                                debt_repaid_usd: report.weighted_liability,
                                bonus_usd: figures.bonus,
                                cost_usd: figures.cost,
                                est_profit_usd: figures.profit,
                            },
                        );
                        let ghost before = opportunities@;
                        let opportunity: Opportunity = build_opportunity(
                            position,
                            report,
                            market,
                            asset_bank,
                            liab_bank,
                        );
                        opportunities.push(opportunity);
                        assert(opportunities@.map_values(told) =~= before.map_values(told).push(
                            opportunity@,
                        ));
                    }
                }
            },
        }
        i = i + 1;
    }
    let rows: Vec<OppRow> = rank_rows(&rows);
    let whales: Vec<WhaleRow> = top_whales(&whales);
    Survey { opportunities, rows, whales, risk, skipped_incomplete }
}

/// Each risk bucket of a pass lies inside the next wider one.
pub proof fn law_buckets_nested(pass: Pass, n: int)
    ensures
        count(pass.below(ONE), n) <= count(pass.below(EDGE_BELOW), n),
        count(pass.below(EDGE_BELOW), n) <= count(pass.below(AT_RISK_BELOW), n),
        count(pass.below(AT_RISK_BELOW), n) <= count(pass.below(WATCH_BELOW), n),
        count(pass.below(WATCH_BELOW), n) <= count(pass.priced(), n),
{
    lemma_count_implies(pass.below(ONE), pass.below(EDGE_BELOW), n);
    lemma_count_implies(pass.below(EDGE_BELOW), pass.below(AT_RISK_BELOW), n);
    lemma_count_implies(pass.below(AT_RISK_BELOW), pass.below(WATCH_BELOW), n);
    lemma_count_implies(pass.below(WATCH_BELOW), pass.priced(), n);
}

/// A position is in the innermost bucket exactly when it counts and its
/// report says that it can be liquidated.
pub proof fn law_innermost_bucket_is_liquidatable(pass: Pass, i: int)
    ensures
        (pass.below(ONE))(i) <==> (pass.counted())(i) && pass.report(i).liquidatable,
{
}

/// Every position is either skipped for a missing price or fully priced.
pub proof fn law_skipped_or_priced(pass: Pass, n: int)
    requires
        0 <= n,
    ensures
        count(pass.incomplete(), n) + count(pass.priced(), n) == n,
    decreases n,
{
    if n > 0 {
        law_skipped_or_priced(pass, n - 1);
    }
}

/// Every row that a pass lists stands for a position that is priced on both
/// sides, owes between 1 and 1000000 dollars, no less than the least debt
/// asked for, and has a health factor below one.
pub proof fn law_rows_are_liquidatable(pass: Pass, n: int, k: int)
    requires
        0 <= k < gather(pass.listed(), pass.row(), n).len(),
    ensures
        ({
            let row = gather(pass.listed(), pass.row(), n)[k];
            &&& row.health_factor.lt(Double::of(ONE))
            &&& Double::of(ONE).le(row.debt_usd)
            &&& row.debt_usd.le(Double::of(MAX_PLAUSIBLE_USD))
            &&& !row.debt_usd.lt(pass.min_debt)
            &&& row.debt_repaid_usd == row.debt_usd
            &&& exists|i: int|
                0 <= i < n && is_assessable(pass.market, #[trigger] pass.positions[i])
                    && row.position == pass.positions[i].address
        }),
{
    lemma_gathered(pass.listed(), pass.row(), n, k);
    let i = choose|i: int|
        0 <= i < n && #[trigger] (pass.listed())(i) && gather(pass.listed(), pass.row(), n)[k] == (
        pass.row())(i);
    assert(is_assessable(pass.market, pass.positions[i]));
}

/// A pass gives one opportunity for each row that it lists.
pub proof fn law_one_opportunity_per_row(pass: Pass, n: int)
    ensures
        gather(pass.listed(), pass.opportunity(), n).len() == gather(
            pass.listed(),
            pass.row(),
            n,
        ).len(),
{
    lemma_gather_len(pass.listed(), pass.opportunity(), n);
    lemma_gather_len(pass.listed(), pass.row(), n);
}

/// The asset bank of an opportunity is that of a deposit, its liability bank
/// that of a borrow, and both are known and have a price.
pub proof fn law_opportunity_names_held_banks(pass: Pass, i: int)
    requires
        (pass.listed())(i),
    ensures
        ({
            let opportunity = (pass.opportunity())(i);
            let p = pass.positions[i];
            &&& has_price(pass.market, opportunity.asset_bank)
            &&& has_price(pass.market, opportunity.liab_bank)
            &&& exists|j: int|
                0 <= j < p.deposits.len() && (#[trigger] p.deposits[j]).0 == opportunity.asset_bank
            &&& exists|j: int|
                0 <= j < p.borrows.len() && (#[trigger] p.borrows[j]).0 == opportunity.liab_bank
        }),
{
    let p = pass.positions[i];
    let a = pass.appraisals[i];
    law_one_largest(pass.market, p.deposits, a.deposit_values);
    law_one_largest(pass.market, p.borrows, a.borrow_values);
    assert(has_price(pass.market, p.deposits[0].0));
    assert(has_price(pass.market, p.borrows[0].0));
    let j = choose|k: int| is_largest(pass.market, p.deposits, a.deposit_values, k);
    assert(has_price(pass.market, p.deposits[j].0));
    let k = choose|k: int| is_largest(pass.market, p.borrows, a.borrow_values, k);
    assert(has_price(pass.market, p.borrows[k].0));
}

/// The remaining accounts of an opportunity name each bank once.
pub proof fn law_remaining_banks_differ(
    all: Seq<Holding>,
    banks: Map<Pubkey, BankConfig>,
    a: int,
    b: int,
)
    requires
        0 <= a < b < remaining_of(all, banks).len(),
    ensures
        remaining_of(all, banks)[a].0 != remaining_of(all, banks)[b].0,
{
    lemma_remaining_differ(all, banks, all.len() as int, a, b);
}

proof fn lemma_remaining_differ(
    all: Seq<Holding>,
    banks: Map<Pubkey, BankConfig>,
    n: int,
    a: int,
    b: int,
)
    requires
        0 <= a < b < gather(is_remaining(all, banks), bank_and_oracle(all, banks), n).len(),
    ensures
        ({
            let kept = gather(is_remaining(all, banks), bank_and_oracle(all, banks), n);
            kept[a].0 != kept[b].0
        }),
    decreases n,
{
    let keep = is_remaining(all, banks);
    let make = bank_and_oracle(all, banks);
    if n > 0 {
        let shorter = gather(keep, make, n - 1);
        if keep(n - 1) && b == shorter.len() {
            lemma_gathered(keep, make, n - 1, a);
            let i = choose|i: int| 0 <= i < n - 1 && #[trigger] keep(i) && shorter[a] == make(i);
            assert(all[i].0 != all[n - 1].0);
        } else {
            lemma_remaining_differ(all, banks, n - 1, a, b);
        }
    }
}

/// Every known bank that the position holds is among the remaining accounts,
/// with its oracle.
pub proof fn law_remaining_banks_complete(
    all: Seq<Holding>,
    banks: Map<Pubkey, BankConfig>,
    i: int,
)
    requires
        0 <= i < all.len(),
        banks.contains_key(all[i].0),
    ensures
        remaining_of(all, banks).contains((all[i].0, banks[all[i].0].oracle)),
{
    lemma_remaining_complete(all, banks, all.len() as int, i);
}

proof fn lemma_remaining_complete(
    all: Seq<Holding>,
    banks: Map<Pubkey, BankConfig>,
    n: int,
    i: int,
)
    requires
        0 <= i < n <= all.len(),
        banks.contains_key(all[i].0),
    ensures
        gather(is_remaining(all, banks), bank_and_oracle(all, banks), n).contains(
            (all[i].0, banks[all[i].0].oracle),
        ),
    decreases n,
{
    let keep = is_remaining(all, banks);
    let make = bank_and_oracle(all, banks);
    let wanted = (all[i].0, banks[all[i].0].oracle);
    let shorter = gather(keep, make, n - 1);
    let longer = gather(keep, make, n);
    if i < n - 1 {
        lemma_remaining_complete(all, banks, n - 1, i);
        let k = choose|k: int| 0 <= k < shorter.len() && shorter[k] == wanted;
        assert(longer[k] == wanted);
    } else if is_first(all, i) {
        assert(longer[shorter.len() as int] == wanted);
    } else {
        let j = choose|j: int| 0 <= j < i && (#[trigger] all[j]).0 == all[i].0;
        lemma_remaining_complete(all, banks, n - 1, j);
        let k = choose|k: int| 0 <= k < shorter.len() && shorter[k] == wanted;
        assert(longer[k] == wanted);
    }
}

/// What a pass finds hangs together: the risk buckets are nested, every
/// position is either skipped or fully priced, there is an opportunity for each
/// row, and no more whales than are kept.
pub proof fn law_survey_hangs_together(out: Survey, pass: Pass)
    requires
        is_survey(out, pass),
    ensures
        out.risk.nested(),
        out.skipped_incomplete + out.risk.total_priced == pass.positions.len(),
        out.rows@.len() == out.opportunities@.len(),
        out.rows@.len() <= out.risk.liquidatable,
        out.whales@.len() <= WHALES_KEPT,
{
    let n = pass.positions.len() as int;
    law_buckets_nested(pass, n);
    law_skipped_or_priced(pass, n);
    law_one_opportunity_per_row(pass, n);
    lemma_gather_len(pass.listed(), pass.row(), n);
    lemma_count_implies(pass.listed(), pass.below(ONE), n);
    law_sorted_items(gather(pass.listed(), pass.row(), n), profit_rank(), out.rows@);
    law_top_items(
        gather(pass.whale(), pass.whale_row(), n),
        debt_rank(),
        WHALES_KEPT as nat,
        out.whales@,
    );
    assert(out.opportunities@.map_values(|o: Opportunity| o@).len() == out.opportunities@.len());
}

/// From the accounts to the list: every row that a pass over the positions of
/// a protocol lists stands for a position account that says so, with debt,
/// every bank of which is known and has a price.
pub proof fn law_rows_come_from_accounts(
    out: Survey,
    pass: Pass,
    p: Protocol,
    raw: Seq<RawAccount>,
    markets: Map<u16, Pubkey>,
    k: int,
)
    requires
        is_survey(out, pass),
        pass.positions == positions_from(&p, raw, pass.market.banks, markets, raw.len() as int),
        0 <= k < out.rows@.len(),
    ensures
        exists|i: int|
            0 <= i < raw.len() && (#[trigger] raw[i]).0 == out.rows@[k].position && (p.position_of(
                raw[i].0,
                raw[i].1@,
                pass.market.banks,
                markets,
            ) matches Ok(Some(position)) && position.borrows.len() > 0 && position.owner
                == out.rows@[k].owner && all_priced(pass.market, position.deposits) && all_priced(
                pass.market,
                position.borrows,
            )),
{
    let n = pass.positions.len() as int;
    let items = gather(pass.listed(), pass.row(), n);
    law_sorted_items(items, profit_rank(), out.rows@);
    assert(out.rows@.contains(out.rows@[k]));
    let q = choose|q: int| 0 <= q < items.len() && items[q] == out.rows@[k];
    lemma_gathered(pass.listed(), pass.row(), n, q);
    let i = choose|i: int| 0 <= i < n && #[trigger] (pass.listed())(i) && items[q] == (pass.row())(
        i,
    );
    law_positions_come_from_accounts(p, raw, pass.market.banks, markets, raw.len() as int, i);
    let j = choose|j: int|
        0 <= j < raw.len() && p.position_of(
            (#[trigger] raw[j]).0,
            raw[j].1@,
            pass.market.banks,
            markets,
        ) == Ok::<Option<PositionModel>, LayoutError>(Some(pass.positions[i]));
    law_positions_owe(p, raw[j].0, raw[j].1@, pass.market.banks, markets);
    assert(raw[j].0 == out.rows@[k].position);
}

/// The outcome of one scan.
pub struct ScanResult {
    pub protocol_name: String,
    pub status: ImplStatus,
    pub banks_total: usize,
    pub banks_priced: usize,
    pub positions_scanned: usize,
    pub scan_duration_ms: u64,
    pub opportunities: Vec<OppRow>,
    pub risk_buckets: RiskBuckets,
    pub whale_watch: Vec<WhaleRow>,
    pub oracle_divergence: Vec<DivergenceRow>,
    pub chain: ChainState,
    pub total_profit_usd: Double,
}

/// Where the prices of a protocol come from.
pub enum PriceSource {
    /// The protocol prices itself: the price is in the share value, and what
    /// counts as the oracle's price is one.
    Own(PubkeyMap<Double>),
    /// These oracle accounts must be fetched.
    Oracles(Vec<Pubkey>),
}

/// Whether some bank goes by the oracle `k`.
pub open spec fn is_oracle(banks: Seq<(Pubkey, BankConfig)>, k: Pubkey) -> bool {
    exists|i: int| 0 <= i < banks.len() && (#[trigger] banks[i]).1.oracle == k
}

/// A price of one for the oracle of every bank.
pub fn unit_prices(banks: &PubkeyMap<BankConfig>) -> (out: PubkeyMap<Double>)
    ensures
        forall|k: Pubkey| #[trigger]
            out@.contains_key(k) <==> is_oracle(banks.listing(), k),
        forall|k: Pubkey| #[trigger] out@.contains_key(k) ==> out@[k] == Double::of(ONE),
{
    let entries: &Vec<(Pubkey, BankConfig)> = banks.entries();
    let mut out: PubkeyMap<Double> = PubkeyMap::new();
    let mut i: usize = 0;
    while i < entries.len()
        invariant
            i <= entries@.len(),
            forall|k: Pubkey| #[trigger]
                out@.contains_key(k) <==> is_oracle(entries@.take(i as int), k),
            forall|k: Pubkey| #[trigger] out@.contains_key(k) ==> out@[k] == Double::of(ONE),
        decreases entries@.len() - i,
    {
        let ghost before = out@;
        let ghost shorter = entries@.take(i as int);
        let ghost longer = entries@.take(i + 1);
        out.insert(entries[i].1.oracle, Double::from_bits(ONE));
        assert forall|k: Pubkey| #[trigger] out@.contains_key(k) <==> is_oracle(longer, k) by {
            if is_oracle(shorter, k) {
                let j = choose|j: int|
                    0 <= j < shorter.len() && (#[trigger] shorter[j]).1.oracle == k;
                assert(longer[j].1.oracle == k);
            }
            if is_oracle(longer, k) && !is_oracle(shorter, k) {
                let j = choose|j: int|
                    0 <= j < longer.len() && (#[trigger] longer[j]).1.oracle == k;
                if j < i {
                    assert(shorter[j].1.oracle == k);
                }
            }
            assert(longer[i as int].1.oracle == entries@[i as int].1.oracle);
            assert(before.contains_key(k) <==> is_oracle(shorter, k));
        }
        i = i + 1;
    }
    assert(entries@.take(entries@.len() as int) =~= entries@);
    out
}

/// The oracle of every bank, bank by bank.
pub fn oracle_keys(banks: &PubkeyMap<BankConfig>) -> (out: Vec<Pubkey>)
    ensures
        out@ == banks.listing().map_values(|e: (Pubkey, BankConfig)| e.1.oracle),
{
    let entries: &Vec<(Pubkey, BankConfig)> = banks.entries();
    let ghost oracle_of = |e: (Pubkey, BankConfig)| e.1.oracle;
    let mut out: Vec<Pubkey> = Vec::with_capacity(entries.len());
    let mut i: usize = 0;
    assert(entries@.take(0).map_values(oracle_of) =~= Seq::<Pubkey>::empty());
    while i < entries.len()
        invariant
            i <= entries@.len(),
            oracle_of == (|e: (Pubkey, BankConfig)| e.1.oracle),
            out@ == entries@.take(i as int).map_values(oracle_of),
        decreases entries@.len() - i,
    {
        out.push(entries[i].1.oracle);
        assert(entries@.take(i + 1).map_values(oracle_of) =~= entries@.take(i as int).map_values(
            oracle_of,
        ).push(entries@[i as int].1.oracle));
        i = i + 1;
    }
    assert(entries@.take(entries@.len() as int) =~= entries@);
    out
}

/// Whether the bank at `i` goes by an oracle that has a price.
pub open spec fn is_bank_priced(
    banks: Seq<(Pubkey, BankConfig)>,
    prices: Map<Pubkey, Double>,
) -> spec_fn(int) -> bool {
    |i: int| prices.contains_key(banks[i].1.oracle)
}

/// How many banks have a price.
pub fn banks_priced(market: &Market) -> (out: usize)
    ensures
        out == count(
            is_bank_priced(market.banks.listing(), market@.prices),
            market.banks.listing().len() as int,
        ),
{
    let entries: &Vec<(Pubkey, BankConfig)> = market.banks.entries();
    let ghost priced = is_bank_priced(entries@, market@.prices);
    let mut out: usize = 0;
    let mut i: usize = 0;
    while i < entries.len()
        invariant
            i <= entries@.len(),
            priced == is_bank_priced(entries@, market@.prices),
            out == count(priced, i as int),
        decreases entries@.len() - i,
    {
        proof {
            lemma_count_fits(priced, i as int);
        }
        if market.prices.get(&entries[i].1.oracle).is_some() {
            out = out + 1;
        }
        i = i + 1;
    }
    out
}

/// The accounts of a program that start with the given bytes.
#[derive(Clone, Copy, Debug)]
pub struct Query {
    pub program: Pubkey,
    pub disc: [u8; 8],
}

impl Query {
    /// Whether the query is for the accounts of one type of a protocol.
    pub open spec fn asks_for(self, p: Protocol, account_type: Seq<char>) -> bool {
        self.program == p.address() && self.disc@ == discriminator("account:"@, account_type)
    }
}

/// How a scan begins.
pub enum Begun {
    Finished(ScanResult),
    FetchBanks(Query),
}

/// What bank accounts lead to.
pub struct BanksTaken {
    pub load: BankLoad,
    /// The position accounts to fetch next, if any.
    pub next: Option<Query>,
}

/// What position accounts lead to.
pub struct PositionsTaken {
    pub load: PositionLoad,
    pub source: PriceSource,
}

/// Whether `r` is the outcome for a protocol for which nothing is fetched.
pub open spec fn is_pending_result(r: ScanResult, p: Protocol, elapsed_ms: u64) -> bool {
    &&& r.protocol_name@ == p.label()
    &&& r.status == ImplStatus::Pending
    &&& r.banks_total == 0
    &&& r.banks_priced == 0
    &&& r.positions_scanned == 0
    &&& r.scan_duration_ms == elapsed_ms
    &&& r.opportunities@.len() == 0
    &&& r.risk_buckets == RiskBuckets::empty()
    &&& r.whale_watch@.len() == 0
    &&& r.oracle_divergence@.len() == 0
    &&& r.chain == (ChainState { slot: 0, priority_fee_microlamports: 0 })
    &&& r.total_profit_usd == Double::of(ZERO)
}

/// Scans one protocol.
pub struct Scanner {
    pub cfg: Config,
    pub protocol: Protocol,
    pub oracle: OracleClient,
    pub liquidator: Option<Liquidator>,
}

impl Scanner {
    pub fn new(cfg: Config, protocol: Protocol, liquidator: Option<Liquidator>) -> (out: Scanner)
        ensures
            out == (Scanner { cfg, protocol, oracle: OracleClient, liquidator }),
    {
        Scanner { cfg, protocol, oracle: OracleClient::new(), liquidator }
    }

    pub fn name(&self) -> (out: &'static str)
        ensures
            out@ == self.protocol.label(),
    {
        self.protocol.name()
    }

    pub fn impl_status(&self) -> (out: ImplStatus)
        ensures
            out == self.protocol.readiness(),
    {
        self.protocol.status()
    }

    /// Whether the protocol prices itself.
    pub open spec fn self_priced(self) -> bool {
        self.protocol.label() == "kamino"@
    }

    pub fn is_self_priced(&self) -> (out: bool)
        ensures
            out == self.self_priced(),
    {
        same(self.protocol.name(), "kamino")
    }

    /// The outcome of scanning a protocol that is pending, for which nothing
    /// is fetched; none for a protocol that is live.
    pub fn pending_result(&self, elapsed_ms: u64) -> (out: Option<ScanResult>)
        ensures
            match out {
                None => self.protocol.readiness() != ImplStatus::Pending,
                Some(r) => {
                    &&& self.protocol.readiness() == ImplStatus::Pending
                    &&& is_pending_result(r, self.protocol, elapsed_ms)
                },
            },
    {
        if self.protocol.status() != ImplStatus::Pending {
            return None;
        }
        Some(
            ScanResult {
                protocol_name: self.protocol.name().to_string(),
                status: ImplStatus::Pending,
                banks_total: 0,
                banks_priced: 0,
                positions_scanned: 0,
                scan_duration_ms: elapsed_ms,
                opportunities: Vec::new(),
                risk_buckets: RiskBuckets::default(),
                whale_watch: Vec::new(),
                oracle_divergence: Vec::new(),
                chain: ChainState::default(),
                total_profit_usd: Double::from_bits(ZERO),
            },
        )
    }

    /// Begins a scan: what to fetch first, or the outcome where nothing is
    /// fetched.
    pub fn begin(&self, elapsed_ms: u64) -> (out: Begun)
        ensures
            match out {
                Begun::Finished(r) => {
                    &&& self.protocol.readiness() == ImplStatus::Pending
                    &&& is_pending_result(r, self.protocol, elapsed_ms)
                },
                Begun::FetchBanks(query) => {
                    &&& self.protocol.readiness() != ImplStatus::Pending
                    &&& query.asks_for(self.protocol, self.protocol.bank_type())
                },
            },
    {
        match self.pending_result(elapsed_ms) {
            Some(r) => Begun::Finished(r),
            None => Begun::FetchBanks(
                Query { program: self.protocol.program_id(), disc: self.protocol.bank_disc() },
            ),
        }
    }

    /// Whether `out` is what fetching the bank accounts leads to: the error of
    /// the fetch, or the banks and the query for position accounts where there
    /// can be positions in them.
    pub open spec fn took_banks<E>(
        self,
        out: Result<BanksTaken, E>,
        fetched: Result<Vec<RawAccount>, E>,
    ) -> bool {
        match (fetched, out) {
            (Err(e), _) => out == Err::<BanksTaken, E>(e),
            (Ok(_), Err(_)) => false,
            (Ok(raw), Ok(taken)) => {
                &&& is_bank_load(taken.load, self.protocol, raw@)
                &&& match taken.next {
                    Some(query) => {
                        &&& self.protocol.reads_positions(taken.load.book.markets@)
                        &&& query.asks_for(self.protocol, self.protocol.position_type())
                    },
                    None => !self.protocol.reads_positions(taken.load.book.markets@),
                }
            },
        }
    }

    /// Goes on with the bank accounts.
    pub fn take_banks<E>(&self, fetched: Result<Vec<RawAccount>, E>) -> (out: Result<
        BanksTaken,
        E,
    >)
        ensures
            self.took_banks(out, fetched),
    {
        let raw: Vec<RawAccount> = match fetched {
            Ok(raw) => raw,
            Err(e) => return Err(e),
        };
        let load: BankLoad = load_banks(&self.protocol, &raw);
        let next: Option<Query> = if self.protocol.wants_positions(&load.book) {
            Some(
                Query { program: self.protocol.program_id(), disc: self.protocol.position_disc() },
            )
        } else {
            None
        };
        Ok(BanksTaken { load, next })
    }

    /// Whether `out` is what fetching the position accounts leads to: the error
    /// of the fetch, or the positions and where the prices come from.
    pub open spec fn took_positions<E>(
        self,
        out: Result<PositionsTaken, E>,
        book: BankBook,
        fetched: Result<Vec<RawAccount>, E>,
    ) -> bool {
        match (fetched, out) {
            (Err(e), _) => out == Err::<PositionsTaken, E>(e),
            (Ok(_), Err(_)) => false,
            (Ok(raw), Ok(taken)) => {
                &&& is_position_load(taken.load, self.protocol, raw@, book)
                &&& self.is_price_source(taken.source, book.banks.listing())
            },
        }
    }

    /// Goes on with the position accounts.
    pub fn take_positions<E>(
        &self,
        book: &BankBook,
        fetched: Result<Vec<RawAccount>, E>,
    ) -> (out: Result<PositionsTaken, E>)
        ensures
            self.took_positions(out, *book, fetched),
    {
        let raw: Vec<RawAccount> = match fetched {
            Ok(raw) => raw,
            Err(e) => return Err(e),
        };
        Ok(
            PositionsTaken {
                load: load_positions(&self.protocol, &raw, book),
                source: self.price_source(&book.banks),
            },
        )
    }

    /// Whether `out` is what fetching the oracle accounts leads to: the error of
    /// the fetch, or the prices that the accounts give.
    pub open spec fn took_oracles<E>(
        self,
        out: Result<PriceCoverage, E>,
        fetched: Result<Vec<Fetched>, E>,
    ) -> bool {
        match (fetched, out) {
            (Err(e), _) => out == Err::<PriceCoverage, E>(e),
            (Ok(_), Err(_)) => false,
            (Ok(accounts), Ok(coverage)) => is_coverage(coverage, accounts@),
        }
    }

    /// Goes on with the oracle accounts.
    pub fn take_oracles<E>(&self, fetched: Result<Vec<Fetched>, E>) -> (out: Result<
        PriceCoverage,
        E,
    >)
        ensures
            self.took_oracles(out, fetched),
    {
        match fetched {
            Ok(accounts) => Ok(self.oracle.get_prices(&accounts)),
            Err(e) => Err(e),
        }
    }

    /// Whether `source` is where the prices for these banks come from.
    pub open spec fn is_price_source(
        self,
        source: PriceSource,
        banks: Seq<(Pubkey, BankConfig)>,
    ) -> bool {
        match source {
            PriceSource::Own(prices) => {
                &&& self.self_priced()
                &&& forall|k: Pubkey| #[trigger]
                    prices@.contains_key(k) <==> is_oracle(banks, k)
                &&& forall|k: Pubkey| #[trigger]
                    prices@.contains_key(k) ==> prices@[k] == Double::of(ONE)
            },
            PriceSource::Oracles(keys) => {
                &&& !self.self_priced()
                &&& keys@ == banks.map_values(|e: (Pubkey, BankConfig)| e.1.oracle)
            },
        }
    }

    /// Where the prices for these banks come from.
    pub fn price_source(&self, banks: &PubkeyMap<BankConfig>) -> (out: PriceSource)
        ensures
            self.is_price_source(out, banks.listing()),
    {
        if self.is_self_priced() {
            PriceSource::Own(unit_prices(banks))
        } else {
            PriceSource::Oracles(oracle_keys(banks))
        }
    }

    /// One pass over the positions, listing those that owe at least what the
    /// configuration asks for.
    pub fn scan_positions(
        &self,
        market: &Market,
        positions: &Vec<RawPosition>,
        appraisals: &Vec<Appraisal>,
    ) -> (out: Survey)
        requires
            pass_of(market@, positions@, appraisals@, self.cfg.min_debt_usd).is_appraised(),
        ensures
            is_survey(
                out,
                pass_of(market@, positions@, appraisals@, self.cfg.min_debt_usd),
            ),
    {
        survey(market, positions, appraisals, self.cfg.min_debt_usd)
    }

    /// Which opportunity to try to liquidate next: the first that was not tried
    /// yet, whatever came of the attempts before; none without a liquidator.
    pub fn next_attempt(&self, attempts: &Attempts, opportunities: &Vec<Opportunity>) -> (out:
        Option<usize>)
        ensures
            out == attempts.next(self.liquidator is Some, opportunities@.len()),
    {
        if self.liquidator.is_some() && attempts.made < opportunities.len() {
            Some(attempts.made)
        } else {
            None
        }
    }

    /// Whether `out` is the outcome of a scan that found all this.
    pub open spec fn concludes(
        self,
        out: ScanResult,
        market: Market,
        positions_scanned: usize,
        elapsed_ms: u64,
        survey: Survey,
        oracle_divergence: Vec<DivergenceRow>,
        chain: ChainState,
        total_profit_usd: Double,
    ) -> bool {
        let banks = market.banks.listing();
        &&& out.protocol_name@ == self.protocol.label()
        &&& out.status == self.protocol.readiness()
        &&& out.banks_total == banks.len()
        &&& out.banks_priced == count(is_bank_priced(banks, market@.prices), banks.len() as int)
        &&& out.positions_scanned == positions_scanned
        &&& out.scan_duration_ms == elapsed_ms
        &&& out.opportunities == survey.rows
        &&& out.risk_buckets == survey.risk
        &&& out.whale_watch == survey.whales
        &&& out.oracle_divergence == oracle_divergence
        &&& out.chain == chain
        &&& out.total_profit_usd == total_profit_usd
    }

    /// Puts the outcome of a scan together.
    pub fn conclude(
        &self,
        market: &Market,
        positions_scanned: usize,
        elapsed_ms: u64,
        survey: Survey,
        oracle_divergence: Vec<DivergenceRow>,
        chain: ChainState,
        total_profit_usd: Double,
    ) -> (out: ScanResult)
        ensures
            self.concludes(
                out,
                *market,
                positions_scanned,
                elapsed_ms,
                survey,
                oracle_divergence,
                chain,
                total_profit_usd,
            ),
    {
        ScanResult {
            protocol_name: self.protocol.name().to_string(),
            status: self.protocol.status(),
            banks_total: market.banks.len(),
            banks_priced: banks_priced(market),
            positions_scanned,
            scan_duration_ms: elapsed_ms,
            opportunities: survey.rows,
            risk_buckets: survey.risk,
            whale_watch: survey.whales,
            oracle_divergence,
            chain,
            total_profit_usd,
        }
    }
}

/// What came of an attempt to liquidate.
#[derive(Clone, Copy, PartialEq, Eq, Structural, Debug)]
pub enum Outcome {
    /// A transaction was sent.
    Sent,
    /// The opportunity was skipped: unprofitable, or a dry run.
    Skipped,
    /// The attempt failed.
    Failed,
}

/// How far the attempts to liquidate the opportunities of a scan have come.
#[derive(Clone, Copy, PartialEq, Eq, Structural, Debug)]
pub struct Attempts {
    pub made: usize,
    pub failed: usize,
}

impl Attempts {
    pub open spec fn none() -> Attempts {
        Attempts { made: 0, failed: 0 }
    }

    /// No more attempts failed than were made.
    pub open spec fn wf(self) -> bool {
        self.failed <= self.made
    }

    /// The opportunity to try next, of `n`.
    pub open spec fn next(self, liquidating: bool, n: nat) -> Option<usize> {
        if liquidating && self.made < n {
            Some(self.made)
        } else {
            None
        }
    }

    /// One attempt further.
    pub open spec fn after(self, outcome: Outcome) -> Attempts {
        Attempts {
            made: (self.made + 1) as usize,
            failed: if outcome == Outcome::Failed {
                (self.failed + 1) as usize
            } else {
                self.failed
            },
        }
    }

    pub fn new() -> (out: Attempts)
        ensures
            out == Attempts::none(),
            out.wf(),
    {
        Attempts { made: 0, failed: 0 }
    }

    /// Takes note of an attempt.
    pub fn record(&mut self, outcome: Outcome)
        requires
            old(self).wf(),
            old(self).made < usize::MAX,
        ensures
            *final(self) == old(self).after(outcome),
            final(self).wf(),
    {
        self.made = self.made + 1;
        if outcome == Outcome::Failed {
            self.failed = self.failed + 1;
        }
    }
}

/// How far the attempts have come after `steps` rounds of asking for the next
/// opportunity and trying it, and which opportunities were tried, in order.
/// `outcome` says what comes of each attempt.
pub open spec fn attempted(
    liquidating: bool,
    n: nat,
    outcome: spec_fn(usize) -> Outcome,
    steps: nat,
) -> (Attempts, Seq<usize>)
    decreases steps,
{
    if steps == 0 {
        (Attempts::none(), Seq::empty())
    } else {
        let (attempts, tried) = attempted(liquidating, n, outcome, (steps - 1) as nat);
        match attempts.next(liquidating, n) {
            Some(k) => (attempts.after(outcome(k)), tried.push(k)),
            None => (attempts, tried),
        }
    }
}

proof fn lemma_attempted(n: nat, outcome: spec_fn(usize) -> Outcome, steps: nat)
    requires
        n <= usize::MAX,
    ensures
        ({
            let (attempts, tried) = attempted(true, n, outcome, steps);
            let made = if steps <= n {
                steps
            } else {
                n
            };
            &&& attempts.made == made
            &&& attempts.failed <= made
            &&& tried == Seq::new(made, |i: int| i as usize)
        }),
    decreases steps,
{
    if steps > 0 {
        lemma_attempted(n, outcome, (steps - 1) as nat);
        let tried = attempted(true, n, outcome, (steps - 1) as nat).1;
        if steps <= n {
            assert(tried.push((steps - 1) as usize) =~= Seq::new(steps, |i: int| i as usize));
        }
    } else {
        assert(Seq::<usize>::empty() =~= Seq::new(0, |i: int| i as usize));
    }
}

/// With a liquidator every opportunity is tried exactly once and in order,
/// whatever comes of the attempts: a failure stops none of those that follow.
/// As many attempts are then made as there are opportunities, and no more.
pub proof fn law_every_opportunity_is_tried_once(
    n: nat,
    outcome: spec_fn(usize) -> Outcome,
    steps: nat,
)
    requires
        n <= usize::MAX,
        n <= steps,
    ensures
        attempted(true, n, outcome, steps).1 == Seq::new(n, |i: int| i as usize),
        attempted(true, n, outcome, steps).0.made == n,
        attempted(true, n, outcome, steps).0.next(true, n) is None,
{
    lemma_attempted(n, outcome, steps);
}

/// Without a liquidator nothing is tried.
pub proof fn law_nothing_is_tried_without_liquidator(
    n: nat,
    outcome: spec_fn(usize) -> Outcome,
    steps: nat,
)
    ensures
        attempted(false, n, outcome, steps) == (Attempts::none(), Seq::<usize>::empty()),
    decreases steps,
{
    if steps > 0 {
        law_nothing_is_tried_without_liquidator(n, outcome, (steps - 1) as nat);
    }
}

/// Whether two outcomes of a scan say the same, apart from how long it took.
pub open spec fn says_the_same(a: ScanResult, b: ScanResult) -> bool {
    &&& a.protocol_name@ == b.protocol_name@
    &&& a.status == b.status
    &&& a.banks_total == b.banks_total
    &&& a.banks_priced == b.banks_priced
    &&& a.positions_scanned == b.positions_scanned
    &&& a.opportunities@ == b.opportunities@
    &&& a.risk_buckets == b.risk_buckets
    &&& a.whale_watch@ == b.whale_watch@
    &&& a.oracle_divergence@ == b.oracle_divergence@
    &&& a.chain == b.chain
    &&& a.total_profit_usd == b.total_profit_usd
}

/// The outcome of a scan does not depend on the liquidator: two scanners of the
/// same protocol with the same least debt, whatever liquidator each has or
/// whether it has one, come to the same outcome from the same market, positions
/// and figures.
pub proof fn law_liquidator_does_not_change_the_outcome(
    one: Scanner,
    other: Scanner,
    market: Market,
    positions: Seq<RawPosition>,
    appraisals: Seq<Appraisal>,
    scanned: usize,
    divergence: Vec<DivergenceRow>,
    chain: ChainState,
    total_profit_usd: Double,
    found: (Survey, Survey),
    elapsed_ms: (u64, u64),
    out: (ScanResult, ScanResult),
)
    requires
        one.protocol == other.protocol,
        one.cfg.min_debt_usd == other.cfg.min_debt_usd,
        is_survey(found.0, pass_of(market@, positions, appraisals, one.cfg.min_debt_usd)),
        is_survey(found.1, pass_of(market@, positions, appraisals, other.cfg.min_debt_usd)),
        one.concludes(
            out.0,
            market,
            scanned,
            elapsed_ms.0,
            found.0,
            divergence,
            chain,
            total_profit_usd,
        ),
        other.concludes(
            out.1,
            market,
            scanned,
            elapsed_ms.1,
            found.1,
            divergence,
            chain,
            total_profit_usd,
        ),
    ensures
        says_the_same(out.0, out.1),
{
    let pass = pass_of(market@, positions, appraisals, one.cfg.min_debt_usd);
    let n = pass.positions.len() as int;
    law_sorting_is_unique(
        gather(pass.listed(), pass.row(), n),
        profit_rank(),
        found.0.rows@,
        found.1.rows@,
    );
    law_top_is_unique(
        gather(pass.whale(), pass.whale_row(), n),
        debt_rank(),
        WHALES_KEPT as nat,
        found.0.whales@,
        found.1.whales@,
    );
}

/// A scan of a live protocol fails exactly where one of its fetches fails, and
/// with the error of the first that does: the bank accounts, the position
/// accounts, and the oracle accounts where the protocol does not price itself.
/// A fetch that is not asked for has no accounts and does not fail.
pub proof fn law_scan_fails_iff_a_fetch_fails<E>(
    s: Scanner,
    bank_accounts: Result<Vec<RawAccount>, E>,
    position_accounts: Result<Vec<RawAccount>, E>,
    oracle_accounts: Result<Vec<Fetched>, E>,
    banks: Result<BanksTaken, E>,
    positions: Result<PositionsTaken, E>,
    prices: Result<PriceCoverage, E>,
)
    requires
        s.took_banks(banks, bank_accounts),
        banks matches Ok(b) ==> s.took_positions(positions, b.load.book, position_accounts),
        positions matches Ok(p) ==> p.source is Oracles ==> s.took_oracles(
            prices,
            oracle_accounts,
        ),
    ensures
        banks is Ok && positions is Ok && (s.self_priced() || prices is Ok) <==> bank_accounts is Ok
            && position_accounts is Ok && (s.self_priced() || oracle_accounts is Ok),
        bank_accounts matches Err(e) ==> banks == Err::<BanksTaken, E>(e),
        banks is Ok ==> (position_accounts matches Err(e) ==> positions == Err::<PositionsTaken, E>(
            e,
        )),
        banks is Ok && positions is Ok && !s.self_priced() ==> (oracle_accounts matches Err(e)
            ==> prices == Err::<PriceCoverage, E>(e)),
{
}

/// No more banks have a price than there are.
pub proof fn law_priced_banks_are_banks(
    banks: Seq<(Pubkey, BankConfig)>,
    prices: Map<Pubkey, Double>,
)
    ensures
        count(is_bank_priced(banks, prices), banks.len() as int) <= banks.len(),
{
    lemma_count_fits(is_bank_priced(banks, prices), banks.len() as int);
}

/// The number of units of a double in one dollar.
pub open spec fn dollar() -> int {
    pow2(1074) as int
}

/// The limits are the numbers they are named for: whole numbers exactly, and
/// hundredths to within what a double can tell apart.
pub proof fn law_limits_are_their_numbers()
    ensures
        Double::of(ONE).units() == dollar(),
        Double::of(MAX_PLAUSIBLE_USD).units() == 1_000_000 * dollar(),
        Double::of(MAX_PLAUSIBLE_RATIO).units() == 100 * dollar(),
        Double::of(WHALE_FROM_USD).units() == 10_000 * dollar(),
        -50 * pow2(1022) <= 100 * Double::of(EDGE_BELOW).units() - 102 * dollar() <= 50 * pow2(1022),
        -50 * pow2(1022) <= 100 * Double::of(AT_RISK_BELOW).units() - 105 * dollar() <= 50 * pow2(
            1022,
        ),
        -50 * pow2(1022) <= 100 * Double::of(WATCH_BELOW).units() - 110 * dollar() <= 50 * pow2(
            1022,
        ),
{
    lemma2_to64();
    lemma2_to64_rest();
    lemma_pow2_adds(52, 1022);
    lemma_pow2_adds(33, 1041);
    lemma_pow2_adds(46, 1028);
    lemma_pow2_adds(39, 1035);
    assert(pow2(1074) == 0x10_0000_0000_0000 * pow2(1022));
    assert(pow2(1074) == 0x2_0000_0000 * pow2(1041));
    assert(pow2(1074) == 0x4000_0000_0000 * pow2(1028));
    assert(pow2(1074) == 0x80_0000_0000 * pow2(1035));
    lemma_units(ONE, 1023, 0);
    lemma_units(MAX_PLAUSIBLE_USD, 1042, 0xe_8480_0000_0000);
    lemma_units(MAX_PLAUSIBLE_RATIO, 1029, 0x9_0000_0000_0000);
    lemma_units(WHALE_FROM_USD, 1036, 0x3_8800_0000_0000);
    assert(Double::of(MAX_PLAUSIBLE_USD).units() == 0x1e_8480_0000_0000 * pow2(1041));
    assert(Double::of(MAX_PLAUSIBLE_RATIO).units() == 0x19_0000_0000_0000 * pow2(1028));
    assert(Double::of(WHALE_FROM_USD).units() == 0x13_8800_0000_0000 * pow2(1035));
    lemma_units(EDGE_BELOW, 1023, 0x0_51eb_851e_b852);
    lemma_units(AT_RISK_BELOW, 1023, 0x0_cccc_cccc_cccd);
    lemma_units(WATCH_BELOW, 1023, 0x1_9999_9999_999a);
    lemma_pow2_pos(1022);
    assert(Double::of(EDGE_BELOW).units() == 0x10_51eb_851e_b852 * pow2(1022));
    assert(Double::of(AT_RISK_BELOW).units() == 0x10_cccc_cccc_cccd * pow2(1022));
    assert(Double::of(WATCH_BELOW).units() == 0x11_9999_9999_999a * pow2(1022));
}

/// Whether a position can be judged by its figures: every bank it holds or
/// owes is known and has a price, it holds and owes something, and both sides
/// are worth between one and a million dollars, the debt no more than a
/// hundred times the collateral.
pub open spec fn can_be_judged(m: MarketModel, p: PositionModel, f: Figures) -> bool {
    &&& p.deposits.len() > 0
    &&& p.borrows.len() > 0
    &&& forall|j: int|
        0 <= j < p.deposits.len() ==> m.banks.contains_key((#[trigger] p.deposits[j]).0)
            && m.prices.contains_key(m.banks[p.deposits[j].0].oracle)
    &&& forall|j: int|
        0 <= j < p.borrows.len() ==> m.banks.contains_key((#[trigger] p.borrows[j]).0)
            && m.prices.contains_key(m.banks[p.borrows[j].0].oracle)
    &&& !f.weighted_collateral.is_nan()
    &&& !f.weighted_liability.is_nan()
    &&& !f.ratio.is_nan()
    &&& dollar() <= f.weighted_collateral.units() <= 1_000_000 * dollar()
    &&& dollar() <= f.weighted_liability.units() <= 1_000_000 * dollar()
    &&& f.ratio.units() <= 100 * dollar()
}

/// Whether a health factor is below `limit` hundredths; NaN never is.
pub open spec fn is_below(hf: Double, limit: Double) -> bool {
    !hf.is_nan() && hf.units() < limit.units()
}

/// Whether the position at `i` can be judged, has a health factor below one,
/// and does not owe less than the least debt asked for.
pub open spec fn should_be_listed(pass: Pass, i: int) -> bool {
    let f = pass.appraisals[i].figures;
    &&& can_be_judged(pass.market, pass.positions[i], f)
    &&& !f.quotient.is_nan()
    &&& f.quotient.units() < dollar()
    &&& pass.min_debt.is_nan() || f.weighted_liability.units() >= pass.min_debt.units()
}

proof fn lemma_counted(pass: Pass, i: int)
    ensures
        (pass.counted())(i) == can_be_judged(
            pass.market,
            pass.positions[i],
            pass.appraisals[i].figures,
        ),
        (pass.counted())(i) ==> {
            let f = pass.appraisals[i].figures;
            &&& pass.report(i).health_factor == f.quotient
            &&& pass.report(i).weighted_liability == f.weighted_liability
            &&& pass.report(i).weighted_collateral == f.weighted_collateral
            &&& pass.report(i).liquidatable == f.quotient.lt(Double::of(ONE))
        },
{
    let f = pass.appraisals[i].figures;
    let p = pass.positions[i];
    let m = pass.market;
    law_limits_are_their_numbers();
    if !f.weighted_collateral.is_nan() {
        law_order_is_numeric(Double::of(ONE), f.weighted_collateral);
        law_order_is_numeric(f.weighted_collateral, Double::of(MAX_PLAUSIBLE_USD));
    }
    if !f.weighted_liability.is_nan() {
        law_order_is_numeric(Double::of(ONE), f.weighted_liability);
        law_order_is_numeric(f.weighted_liability, Double::of(MAX_PLAUSIBLE_USD));
    }
    if !f.ratio.is_nan() {
        law_order_is_numeric(f.ratio, Double::of(MAX_PLAUSIBLE_RATIO));
    }
    assert(all_priced(m, p.deposits) == forall|j: int|
        0 <= j < p.deposits.len() ==> m.banks.contains_key((#[trigger] p.deposits[j]).0)
            && m.prices.contains_key(m.banks[p.deposits[j].0].oracle)) by {
        if all_priced(m, p.deposits) {
            assert forall|j: int| 0 <= j < p.deposits.len() implies m.banks.contains_key(
                (#[trigger] p.deposits[j]).0,
            ) && m.prices.contains_key(m.banks[p.deposits[j].0].oracle) by {
                assert(has_price(m, p.deposits[j].0));
            }
        }
    }
    assert(all_priced(m, p.borrows) == forall|j: int|
        0 <= j < p.borrows.len() ==> m.banks.contains_key((#[trigger] p.borrows[j]).0)
            && m.prices.contains_key(m.banks[p.borrows[j].0].oracle)) by {
        if all_priced(m, p.borrows) {
            assert forall|j: int| 0 <= j < p.borrows.len() implies m.banks.contains_key(
                (#[trigger] p.borrows[j]).0,
            ) && m.prices.contains_key(m.banks[p.borrows[j].0].oracle) by {
                assert(has_price(m, p.borrows[j].0));
            }
        }
    }
}

proof fn lemma_listed(pass: Pass, i: int)
    ensures
        (pass.listed())(i) == should_be_listed(pass, i),
{
    lemma_counted(pass, i);
    let f = pass.appraisals[i].figures;
    law_limits_are_their_numbers();
    if !f.quotient.is_nan() {
        law_order_is_numeric(f.quotient, Double::of(ONE));
    }
    if !f.weighted_liability.is_nan() && !pass.min_debt.is_nan() {
        law_order_is_numeric(f.weighted_liability, pass.min_debt);
    }
}

/// The list is complete: every position that should be listed has a row with
/// its address, its owner and its figures.
pub proof fn law_every_liquidatable_position_has_a_row(out: Survey, pass: Pass, i: int)
    requires
        is_survey(out, pass),
        0 <= i < pass.positions.len(),
        should_be_listed(pass, i),
    ensures
        out.rows@.contains(
            OppRow {
                position: pass.positions[i].address,
                owner: pass.positions[i].owner,
                health_factor: pass.appraisals[i].figures.quotient,
                collateral_usd: pass.appraisals[i].figures.weighted_collateral,
                debt_usd: pass.appraisals[i].figures.weighted_liability,
                debt_repaid_usd: pass.appraisals[i].figures.weighted_liability,
                bonus_usd: pass.appraisals[i].figures.bonus,
                cost_usd: pass.appraisals[i].figures.cost,
                est_profit_usd: pass.appraisals[i].figures.profit,
            },
        ),
{
    let n = pass.positions.len() as int;
    lemma_listed(pass, i);
    lemma_counted(pass, i);
    law_gather_is_complete(pass.listed(), pass.row(), n, i);
    law_sorted_items(gather(pass.listed(), pass.row(), n), profit_rank(), out.rows@);
    assert(out.rows@.contains((pass.row())(i)));
}

/// Whether `row` shows the position at `i`, which should be listed.
pub open spec fn should_be_row(pass: Pass, i: int, row: OppRow) -> bool {
    let f = pass.appraisals[i].figures;
    &&& 0 <= i < pass.positions.len()
    &&& should_be_listed(pass, i)
    &&& row == (OppRow {
        position: pass.positions[i].address,
        owner: pass.positions[i].owner,
        health_factor: f.quotient,
        collateral_usd: f.weighted_collateral,
        debt_usd: f.weighted_liability,
        debt_repaid_usd: f.weighted_liability,
        bonus_usd: f.bonus,
        cost_usd: f.cost,
        est_profit_usd: f.profit,
    })
}

/// Whether `row` shows a position that should be listed.
pub open spec fn is_due(pass: Pass, row: OppRow) -> bool {
    exists|i: int| #[trigger] should_be_row(pass, i, row)
}

/// The list holds nothing else: it has as many rows as there are positions that
/// should be listed, each row stands for one of them, and no row is less
/// profitable than one after it.
pub proof fn law_rows_are_the_liquidatable_positions(out: Survey, pass: Pass)
    requires
        is_survey(out, pass),
    ensures
        out.rows@.len() == indices(pass.positions.len()).filter(
            |i: int| should_be_listed(pass, i),
        ).len(),
        forall|k: int| 0 <= k < out.rows@.len() ==> is_due(pass, #[trigger] out.rows@[k]),
        forall|j: int, k: int|
            0 <= j < k < out.rows@.len() ==> !(#[trigger] out.rows@[j]).est_profit_usd.lt(
                (#[trigger] out.rows@[k]).est_profit_usd,
            ),
{
    let n = pass.positions.len() as int;
    let wanted = |i: int| should_be_listed(pass, i);
    let items = gather(pass.listed(), pass.row(), n);
    lemma_gather_len(pass.listed(), pass.row(), n);
    assert forall|i: int| 0 <= i < n implies #[trigger] (pass.listed())(i) == wanted(
        indices(n as nat)[i],
    ) by {
        lemma_listed(pass, i);
    }
    law_count_of_items(indices(n as nat), wanted, pass.listed());
    law_sorted_items(items, profit_rank(), out.rows@);
    assert forall|k: int| 0 <= k < out.rows@.len() implies is_due(
        pass,
        #[trigger] out.rows@[k],
    ) by {
        assert(out.rows@.contains(out.rows@[k]));
        let q = choose|q: int| 0 <= q < items.len() && items[q] == out.rows@[k];
        lemma_gathered(pass.listed(), pass.row(), n, q);
        let i = choose|i: int|
            0 <= i < n && #[trigger] (pass.listed())(i) && items[q] == (pass.row())(i);
        lemma_listed(pass, i);
        lemma_counted(pass, i);
        assert(should_be_row(pass, i, out.rows@[k]));
    }
    assert forall|j: int, k: int|
        0 <= j < k < out.rows@.len() implies !(#[trigger] out.rows@[j]).est_profit_usd.lt(
        (#[trigger] out.rows@[k]).est_profit_usd,
    ) by {
        assert((profit_rank())(out.rows@[j]) >= (profit_rank())(out.rows@[k]));
        law_rank_refines_order(out.rows@[j].est_profit_usd, out.rows@[k].est_profit_usd);
    }
}

/// There is an opportunity for each position that should be listed, in the
/// order of the positions: it names the position and its owner and carries the
/// figures of its health; the asset bank is that of a deposit that no other
/// deposit is worth more than, the liability bank that of a borrow that no
/// other is worth more than; the keys beside them are those of these banks,
/// and the liquidator's own account and the amount are left open.
pub proof fn law_opportunities_are_the_liquidatable_positions(out: Survey, pass: Pass, k: int)
    requires
        is_survey(out, pass),
        0 <= k < out.opportunities@.len(),
    ensures
        out.opportunities@.len() == indices(pass.positions.len()).filter(
            |i: int| should_be_listed(pass, i),
        ).len(),
        ({
            let i = indices(pass.positions.len()).filter(|i: int| should_be_listed(pass, i))[k];
            let o = out.opportunities@[k];
            let p = pass.positions[i];
            let a = pass.appraisals[i];
            let banks = pass.market.banks;
            &&& o.position == p.address
            &&& o.owner == p.owner
            &&& o.report.health_factor == a.figures.quotient
            &&& o.report.weighted_collateral == a.figures.weighted_collateral
            &&& o.report.weighted_liability == a.figures.weighted_liability
            &&& o.report.liquidatable
            &&& banks.contains_key(o.asset_bank)
            &&& banks.contains_key(o.liab_bank)
            &&& exists|d: int|
                0 <= d < p.deposits.len() && (#[trigger] p.deposits[d]).0 == o.asset_bank && (
                forall|e: int|
                    0 <= e < p.deposits.len() ==> !a.deposit_values[d].lt(
                        #[trigger] a.deposit_values[e],
                    ))
            &&& exists|d: int|
                0 <= d < p.borrows.len() && (#[trigger] p.borrows[d]).0 == o.liab_bank && (forall|
                    e: int,
                |
                    0 <= e < p.borrows.len() ==> !a.borrow_values[d].lt(
                        #[trigger] a.borrow_values[e],
                    ))
            &&& o.asset_bank_oracle == banks[o.asset_bank].oracle
            &&& o.asset_bank_liquidity_vault == banks[o.asset_bank].liquidity_vault
            &&& o.liab_bank_oracle == banks[o.liab_bank].oracle
            &&& o.liab_bank_liquidity_vault == banks[o.liab_bank].liquidity_vault
            &&& o.insurance_vault == banks[o.liab_bank].insurance_vault
            &&& o.marginfi_group == banks[o.liab_bank].group
            &&& o.liquidator_marginfi_account == (Pubkey { hi: 0, lo: 0 })
            &&& o.liquidate_asset_amount == 0
            &&& o.liquidatee_remaining_accounts@ == remaining_of(p.deposits + p.borrows, banks)
        }),
{
    let n = pass.positions.len();
    let wanted = |i: int| should_be_listed(pass, i);
    let told = |o: Opportunity| o@;
    law_gather_filters(pass.listed(), pass.opportunity(), n);
    assert forall|i: int| #[trigger] (pass.listed())(i) == wanted(i) by {
        lemma_listed(pass, i);
    }
    assert(pass.listed() =~= wanted);
    let kept = indices(n).filter(wanted);
    assert(out.opportunities@.map_values(told).len() == out.opportunities@.len());
    indices(n).lemma_filter_pred(wanted, k);
    indices(n).lemma_filter_contains_rev(wanted, kept[k]);
    let i = kept[k];
    let p = pass.positions[i];
    let a = pass.appraisals[i];
    assert(out.opportunities@[k]@ == out.opportunities@.map_values(told)[k]);
    assert(out.opportunities@[k]@ == (pass.opportunity())(i));
    lemma_counted(pass, i);
    lemma_listed(pass, i);
    law_one_largest(pass.market, p.deposits, a.deposit_values);
    law_one_largest(pass.market, p.borrows, a.borrow_values);
    assert(has_price(pass.market, p.deposits[0].0));
    assert(has_price(pass.market, p.borrows[0].0));
    let d = choose|k: int| is_largest(pass.market, p.deposits, a.deposit_values, k);
    assert forall|e: int| 0 <= e < p.deposits.len() implies !a.deposit_values[d].lt(
        #[trigger] a.deposit_values[e],
    ) by {
        assert(has_price(pass.market, p.deposits[e].0));
        law_rank_refines_order(a.deposit_values[d], a.deposit_values[e]);
    }
    assert(p.deposits[d].0 == out.opportunities@[k].asset_bank);
    let b = choose|k: int| is_largest(pass.market, p.borrows, a.borrow_values, k);
    assert forall|e: int| 0 <= e < p.borrows.len() implies !a.borrow_values[b].lt(
        #[trigger] a.borrow_values[e],
    ) by {
        assert(has_price(pass.market, p.borrows[e].0));
        law_rank_refines_order(a.borrow_values[b], a.borrow_values[e]);
    }
    assert(p.borrows[b].0 == out.opportunities@[k].liab_bank);
    assert(has_price(pass.market, p.deposits[d].0));
    assert(has_price(pass.market, p.borrows[b].0));
}

/// The risk buckets count the positions that can be judged by their health
/// factors; the positions that have no price for everything are skipped, and
/// all others count as priced.
pub proof fn law_risk_buckets_count_positions(out: Survey, pass: Pass)
    requires
        is_survey(out, pass),
    ensures
        ({
            let n = pass.positions.len();
            let below = |limit: Double|
                indices(n).filter(
                    |i: int|
                        can_be_judged(pass.market, pass.positions[i], pass.appraisals[i].figures)
                            && is_below(pass.appraisals[i].figures.quotient, limit),
                ).len();
            &&& out.risk.liquidatable == below(Double { bits: 0x3ff0_0000_0000_0000 })
            &&& out.risk.edge == below(Double { bits: 0x3ff0_51eb_851e_b852 })
            &&& out.risk.at_risk == below(Double { bits: 0x3ff0_cccc_cccc_cccd })
            &&& out.risk.watch == below(Double { bits: 0x3ff1_9999_9999_999a })
            &&& out.skipped_incomplete == pass.positions.filter(
                |p: PositionModel|
                    exists|j: int|
                        0 <= j < (p.deposits + p.borrows).len() && !({
                            let bank = (#[trigger] (p.deposits + p.borrows)[j]).0;
                            pass.market.banks.contains_key(bank) && pass.market.prices.contains_key(
                                pass.market.banks[bank].oracle,
                            )
                        }),
            ).len()
            &&& out.skipped_incomplete + out.risk.total_priced == n
        }),
{
    let n = pass.positions.len();
    lemma_bucket(pass, 0x3ff0_0000_0000_0000);
    lemma_bucket(pass, 0x3ff0_51eb_851e_b852);
    lemma_bucket(pass, 0x3ff0_cccc_cccc_cccd);
    lemma_bucket(pass, 0x3ff1_9999_9999_999a);
    law_skipped_or_priced(pass, n as int);
    let gap = |p: PositionModel|
        exists|j: int|
            0 <= j < (p.deposits + p.borrows).len() && !({
                let bank = (#[trigger] (p.deposits + p.borrows)[j]).0;
                pass.market.banks.contains_key(bank) && pass.market.prices.contains_key(
                    pass.market.banks[bank].oracle,
                )
            });
    assert forall|i: int| 0 <= i < n implies #[trigger] (pass.incomplete())(i) == gap(
        pass.positions[i],
    ) by {
        lemma_incomplete(pass.market, pass.positions[i]);
    }
    law_count_of_items(pass.positions, gap, pass.incomplete());
}

proof fn lemma_incomplete(m: MarketModel, p: PositionModel)
    ensures
        is_incomplete(m, p) == exists|j: int|
            0 <= j < (p.deposits + p.borrows).len() && !({
                let bank = (#[trigger] (p.deposits + p.borrows)[j]).0;
                m.banks.contains_key(bank) && m.prices.contains_key(m.banks[bank].oracle)
            }),
{
    let all = p.deposits + p.borrows;
    if !all_priced(m, p.deposits) {
        let j = choose|j: int|
            0 <= j < p.deposits.len() && !has_price(m, (#[trigger] p.deposits[j]).0);
        assert(all[j] == p.deposits[j]);
    }
    if !all_priced(m, p.borrows) {
        let j = choose|j: int|
            0 <= j < p.borrows.len() && !has_price(m, (#[trigger] p.borrows[j]).0);
        assert(all[p.deposits.len() + j] == p.borrows[j]);
    }
    if !is_incomplete(m, p) {
        assert forall|j: int| 0 <= j < all.len() implies {
            let bank = (#[trigger] all[j]).0;
            m.banks.contains_key(bank) && m.prices.contains_key(m.banks[bank].oracle)
        } by {
            if j < p.deposits.len() {
                assert(has_price(m, p.deposits[j].0));
            } else {
                assert(has_price(m, p.borrows[j - p.deposits.len()].0));
            }
        }
    }
}

proof fn lemma_bucket(pass: Pass, limit: u64)
    requires
        limit < 0x7ff0_0000_0000_0000,
    ensures
        count(pass.below(limit), pass.positions.len() as int) == indices(
            pass.positions.len(),
        ).filter(
            |i: int|
                can_be_judged(pass.market, pass.positions[i], pass.appraisals[i].figures)
                    && is_below(pass.appraisals[i].figures.quotient, Double { bits: limit }),
        ).len(),
{
    let n = pass.positions.len();
    let judged = |i: int|
        can_be_judged(pass.market, pass.positions[i], pass.appraisals[i].figures) && is_below(
            pass.appraisals[i].figures.quotient,
            Double { bits: limit },
        );
    assert forall|i: int| 0 <= i < n implies #[trigger] (pass.below(limit))(i) == judged(
        indices(n)[i],
    ) by {
        lemma_counted(pass, i);
        let q = pass.appraisals[i].figures.quotient;
        if !q.is_nan() {
            law_order_is_numeric(q, Double::of(limit));
        }
    }
    law_count_of_items(indices(n), judged, pass.below(limit));
}

/// Whether the position at `i` can be judged and owes at least ten thousand
/// dollars.
pub open spec fn is_whale(pass: Pass, i: int) -> bool {
    &&& can_be_judged(pass.market, pass.positions[i], pass.appraisals[i].figures)
    &&& pass.appraisals[i].figures.weighted_liability.units() >= 10_000 * dollar()
}

/// The whale watch shows the six positions that owe the most of those that owe
/// at least ten thousand dollars, whatever their health, the largest debt
/// first; all of them if there are no more than six. One that is left out owes
/// no more than any that is shown.
pub proof fn law_whales_are_the_largest_debts(out: Survey, pass: Pass)
    requires
        is_survey(out, pass),
    ensures
        ({
            let all = indices(pass.positions.len()).filter(|i: int| is_whale(pass, i)).len();
            out.whales@.len() == (if all < 6 {
                all
            } else {
                6
            })
        }),
        forall|k: int|
            0 <= k < out.whales@.len() ==> shows_whale(pass, #[trigger] out.whales@[k]),
        forall|j: int, k: int|
            0 <= j < k < out.whales@.len() ==> !(#[trigger] out.whales@[j]).debt_usd.lt(
                (#[trigger] out.whales@[k]).debt_usd,
            ),
        forall|i: int, k: int|
            0 <= i < pass.positions.len() && #[trigger] is_whale(pass, i) && !out.whales@.contains(
                shown_whale(pass, i),
            ) && 0 <= k < out.whales@.len() ==> !(#[trigger] out.whales@[k]).debt_usd.lt(
                pass.appraisals[i].figures.weighted_liability,
            ),
{
    let n = pass.positions.len() as int;
    let wanted = |i: int| is_whale(pass, i);
    let items = gather(pass.whale(), pass.whale_row(), n);
    lemma_gather_len(pass.whale(), pass.whale_row(), n);
    assert forall|i: int| 0 <= i < n implies #[trigger] (pass.whale())(i) == wanted(
        indices(n as nat)[i],
    ) by {
        lemma_whale(pass, i);
    }
    law_count_of_items(indices(n as nat), wanted, pass.whale());
    law_top_items(items, debt_rank(), 6, out.whales@);
    assert forall|k: int| 0 <= k < out.whales@.len() implies shows_whale(
        pass,
        #[trigger] out.whales@[k],
    ) by {
        assert(items.contains(out.whales@[k]));
        let q = choose|q: int| 0 <= q < items.len() && items[q] == out.whales@[k];
        lemma_gathered(pass.whale(), pass.whale_row(), n, q);
        let i = choose|i: int|
            0 <= i < n && #[trigger] (pass.whale())(i) && items[q] == (pass.whale_row())(i);
        lemma_whale(pass, i);
        assert(is_whale(pass, i));
    }
    assert forall|j: int, k: int|
        0 <= j < k < out.whales@.len() implies !(#[trigger] out.whales@[j]).debt_usd.lt(
        (#[trigger] out.whales@[k]).debt_usd,
    ) by {
        assert((debt_rank())(out.whales@[j]) >= (debt_rank())(out.whales@[k]));
        law_rank_refines_order(out.whales@[j].debt_usd, out.whales@[k].debt_usd);
    }
    assert forall|i: int, k: int|
        0 <= i < pass.positions.len() && #[trigger] is_whale(pass, i) && !out.whales@.contains(
            shown_whale(pass, i),
        ) && 0 <= k < out.whales@.len() implies !(#[trigger] out.whales@[k]).debt_usd.lt(
        pass.appraisals[i].figures.weighted_liability,
    ) by {
        lemma_whale(pass, i);
        law_gather_is_complete(pass.whale(), pass.whale_row(), n, i);
        assert((debt_rank())(out.whales@[k]) >= (debt_rank())(shown_whale(pass, i)));
        law_rank_refines_order(
            out.whales@[k].debt_usd,
            pass.appraisals[i].figures.weighted_liability,
        );
    }
}

/// The position at `i` as the whale watch shows it.
pub open spec fn shown_whale(pass: Pass, i: int) -> WhaleRow {
    let f = pass.appraisals[i].figures;
    WhaleRow {
        position: pass.positions[i].address,
        owner: pass.positions[i].owner,
        debt_usd: f.weighted_liability,
        health_factor: f.quotient,
        liquidatable: !f.quotient.is_nan() && f.quotient.units() < dollar(),
    }
}

/// Whether `row` shows a whale of the pass.
pub open spec fn shows_whale(pass: Pass, row: WhaleRow) -> bool {
    exists|i: int|
        0 <= i < pass.positions.len() && #[trigger] is_whale(pass, i) && row == shown_whale(pass, i)
}

proof fn lemma_whale(pass: Pass, i: int)
    ensures
        (pass.whale())(i) == is_whale(pass, i),
        is_whale(pass, i) ==> (pass.whale_row())(i) == shown_whale(pass, i),
{
    let f = pass.appraisals[i].figures;
    lemma_counted(pass, i);
    law_limits_are_their_numbers();
    if !f.weighted_liability.is_nan() {
        law_order_is_numeric(Double::of(WHALE_FROM_USD), f.weighted_liability);
    }
    if !f.quotient.is_nan() {
        law_order_is_numeric(f.quotient, Double::of(ONE));
    }
}

/// Only Kamino prices itself: there the oracle of every bank counts as a price
/// of one, and no other key has a price. Everywhere else the oracle of every
/// bank is to be fetched, bank by bank.
pub proof fn law_prices_come_from_oracles_except_for_kamino(
    s: Scanner,
    source: PriceSource,
    banks: Seq<(Pubkey, BankConfig)>,
)
    requires
        s.is_price_source(source, banks),
    ensures
        source is Own <==> s.protocol is Kamino,
        source matches PriceSource::Own(prices) ==> {
            &&& forall|i: int|
                0 <= i < banks.len() ==> prices@.contains_key((#[trigger] banks[i]).1.oracle)
            &&& forall|k: Pubkey| #[trigger]
                prices@.contains_key(k) ==> prices@[k] == (Double { bits: 0x3ff0_0000_0000_0000 })
                    && exists|i: int| 0 <= i < banks.len() && (#[trigger] banks[i]).1.oracle == k
        },
        source matches PriceSource::Oracles(keys) ==> {
            &&& keys@.len() == banks.len()
            &&& forall|i: int|
                0 <= i < banks.len() ==> keys@[i] == (#[trigger] banks[i]).1.oracle
        },
{
    reveal_strlit("marginfi-v2");
    reveal_strlit("kamino");
    reveal_strlit("drift");
    reveal_strlit("solend");
    assert("kamino"@.len() == 6 && "marginfi-v2"@.len() == 11 && "drift"@.len() == 5);
    assert("kamino"@[0] == 'k' && "solend"@[0] == 's');
    if let PriceSource::Own(prices) = source {
        assert forall|i: int| 0 <= i < banks.len() implies prices@.contains_key(
            (#[trigger] banks[i]).1.oracle,
        ) by {
            assert(is_oracle(banks, banks[i].1.oracle));
        }
    }
}

/// The outcome of a scan reports what was found: how many banks there are and
/// how many of them have a price, and the rows, the buckets, the whales, the
/// divergence, the chain state and the total it was given.
pub proof fn law_outcome_reports_what_was_found(
    s: Scanner,
    out: ScanResult,
    market: Market,
    scanned: usize,
    elapsed_ms: u64,
    found: Survey,
    divergence: Vec<DivergenceRow>,
    chain: ChainState,
    total_profit_usd: Double,
)
    requires
        s.concludes(
            out,
            market,
            scanned,
            elapsed_ms,
            found,
            divergence,
            chain,
            total_profit_usd,
        ),
    ensures
        out.protocol_name@ == s.protocol.label(),
        out.status == s.protocol.readiness(),
        out.banks_total == market.banks.listing().len(),
        out.banks_priced == market.banks.listing().filter(
            |e: (Pubkey, BankConfig)| market@.prices.contains_key(e.1.oracle),
        ).len(),
        out.positions_scanned == scanned,
        out.scan_duration_ms == elapsed_ms,
        out.opportunities@ == found.rows@,
        out.risk_buckets == found.risk,
        out.whale_watch@ == found.whales@,
        out.oracle_divergence@ == divergence@,
        out.chain == chain,
        out.total_profit_usd == total_profit_usd,
{
    law_count_of_items(
        market.banks.listing(),
        |e: (Pubkey, BankConfig)| market@.prices.contains_key(e.1.oracle),
        is_bank_priced(market.banks.listing(), market@.prices),
    );
}

/// A scan of a protocol that is pending is over at once, with nothing in it; of
/// any other it begins with the accounts that start with the discriminator of
/// the protocol's banks.
pub proof fn law_scan_begins_with_the_banks(s: Scanner, elapsed_ms: u64, out: Begun)
    requires
        call_ensures(Scanner::begin, (&s, elapsed_ms), out),
    ensures
        out is Finished <==> s.protocol.readiness() == ImplStatus::Pending,
        out matches Begun::Finished(r) ==> {
            &&& r.protocol_name@ == s.protocol.label()
            &&& r.status == ImplStatus::Pending
            &&& r.banks_total == 0
            &&& r.banks_priced == 0
            &&& r.positions_scanned == 0
            &&& r.scan_duration_ms == elapsed_ms
            &&& r.opportunities@.len() == 0
            &&& r.whale_watch@.len() == 0
            &&& r.oracle_divergence@.len() == 0
            &&& r.risk_buckets.total_priced == 0
            &&& r.risk_buckets.nested()
            &&& r.total_profit_usd == (Double { bits: 0 })
        },
        out matches Begun::FetchBanks(query) ==> {
            &&& query.program == s.protocol.address()
            &&& query.disc@ == sha256(encode_utf8("account:"@ + s.protocol.bank_type())).take(8)
        },
{
}

/// The banks that a position holds or owes, where they are known, are those
/// that a liquidation must name besides, in the order in which they first
/// occur, each with its oracle.
pub proof fn law_remaining_accounts_are_the_known_banks(
    all: Seq<Holding>,
    banks: Map<Pubkey, BankConfig>,
)
    ensures
        remaining_of(all, banks) == indices(all.len()).filter(
            |i: int|
                banks.contains_key(all[i].0) && forall|j: int|
                    0 <= j < i ==> (#[trigger] all[j]).0 != all[i].0,
        ).map_values(|i: int| (all[i].0, banks[all[i].0].oracle)),
{
    let first = |i: int|
        banks.contains_key(all[i].0) && forall|j: int|
            0 <= j < i ==> (#[trigger] all[j]).0 != all[i].0;
    let named = |i: int| (all[i].0, banks[all[i].0].oracle);
    law_gather_filters(is_remaining(all, banks), bank_and_oracle(all, banks), all.len());
    assert forall|i: int| #[trigger] (is_remaining(all, banks))(i) == first(i) by {
        assert(is_first(all, i) == forall|j: int| 0 <= j < i ==> (#[trigger] all[j]).0 != all[i].0);
    }
    assert(is_remaining(all, banks) =~= first);
    assert(bank_and_oracle(all, banks) =~= named);
}

/// The attempts that failed are those whose outcome was a failure.
pub proof fn law_failed_attempts_are_counted(
    n: nat,
    outcome: spec_fn(usize) -> Outcome,
    steps: nat,
)
    requires
        n <= usize::MAX,
        steps <= n,
    ensures
        ({
            let (attempts, tried) = attempted(true, n, outcome, steps);
            attempts.made == tried.len() && attempts.failed == tried.filter(
                |k: usize| outcome(k) == Outcome::Failed,
            ).len()
        }),
    decreases steps,
{
    reveal(Seq::filter);
    let failed = |k: usize| outcome(k) == Outcome::Failed;
    lemma_attempted(n, outcome, steps);
    if steps > 0 {
        law_failed_attempts_are_counted(n, outcome, (steps - 1) as nat);
        lemma_attempted(n, outcome, (steps - 1) as nat);
        let (before, tried) = attempted(true, n, outcome, (steps - 1) as nat);
        let k = before.made;
        assert(tried.push(k).drop_last() =~= tried);
        assert(attempted(true, n, outcome, steps).1 == tried.push(k));
    }
}

/// What is asked for next after some attempts is the first opportunity that
/// was not tried, and nothing without a liquidator or when all were tried.
pub proof fn law_next_attempt_is_the_first_left(
    s: Scanner,
    attempts: Attempts,
    opportunities: Vec<Opportunity>,
    out: Option<usize>,
)
    requires
        call_ensures(Scanner::next_attempt, (&s, &attempts, &opportunities), out),
    ensures
        out is Some <==> s.liquidator is Some && attempts.made < opportunities@.len(),
        out matches Some(k) ==> k == attempts.made,
{
}

/// Taking note of an attempt counts it, and counts it as failed exactly where
/// it failed.
pub proof fn law_attempt_is_counted(attempts: &mut Attempts, outcome: Outcome)
    requires
        old(attempts).failed <= old(attempts).made < usize::MAX,
        call_ensures(Attempts::record, (attempts, outcome), ()),
    ensures
        final(attempts).made == old(attempts).made + 1,
        final(attempts).failed == old(attempts).failed + (if outcome == Outcome::Failed {
            1int
        } else {
            0int
        }),
{
}

/// A pass looks at every position with its appraisal, at the market as it is,
/// and at the least debt that it is given; a scanner's pass at the one that the
/// configuration asks for.
pub proof fn law_scan_looks_at_every_position(
    s: Scanner,
    market: Market,
    positions: Vec<RawPosition>,
    appraisals: Vec<Appraisal>,
    out: Survey,
)
    requires
        call_ensures(Scanner::scan_positions, (&s, &market, &positions, &appraisals), out),
    ensures
        is_survey(
            out,
            Pass {
                market: MarketModel { banks: market.banks@, prices: market.prices@ },
                positions: Seq::new(
                    positions@.len(),
                    |i: int|
                        PositionModel {
                            address: positions@[i].address,
                            owner: positions@[i].owner,
                            deposits: positions@[i].deposits@,
                            borrows: positions@[i].borrows@,
                        },
                ),
                appraisals: Seq::new(
                    appraisals@.len(),
                    |i: int|
                        AppraisalModel {
                            figures: appraisals@[i].figures,
                            deposit_values: appraisals@[i].deposit_values@,
                            borrow_values: appraisals@[i].borrow_values@,
                        },
                ),
                min_debt: s.cfg.min_debt_usd,
            },
        ),
{
    let pass = pass_of(market@, positions@, appraisals@, s.cfg.min_debt_usd);
    assert(pass.positions =~= Seq::new(
        positions@.len(),
        |i: int|
            PositionModel {
                address: positions@[i].address,
                owner: positions@[i].owner,
                deposits: positions@[i].deposits@,
                borrows: positions@[i].borrows@,
            },
    ));
    assert(pass.appraisals =~= Seq::new(
        appraisals@.len(),
        |i: int|
            AppraisalModel {
                figures: appraisals@[i].figures,
                deposit_values: appraisals@[i].deposit_values@,
                borrow_values: appraisals@[i].borrow_values@,
            },
    ));
}

/// After the banks come the positions: the accounts of the protocol's program
/// that start with the discriminator of its position accounts, unless there
/// can be no position in them.
pub proof fn law_scan_goes_on_with_the_positions<E>(
    s: Scanner,
    raw: Vec<RawAccount>,
    taken: BanksTaken,
)
    requires
        s.took_banks(Ok::<BanksTaken, E>(taken), Ok::<Vec<RawAccount>, E>(raw)),
    ensures
        is_bank_load(taken.load, s.protocol, raw@),
        taken.next is None <==> s.protocol is Solend || (s.protocol is Drift
            && taken.load.book.markets@ == Map::<u16, Pubkey>::empty()),
        taken.next matches Some(query) ==> {
            &&& query.program == s.protocol.address()
            &&& query.disc@ == sha256(
                encode_utf8("account:"@ + s.protocol.position_type()),
            ).take(8)
        },
{
    if taken.load.book.markets@.is_empty() {
        assert(taken.load.book.markets@ =~= Map::<u16, Pubkey>::empty());
    }
}

} // verus!
